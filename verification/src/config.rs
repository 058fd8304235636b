//! The configuration model: per-target settings, engine identity defaults,
//! logging settings, and the validation rules a configuration must satisfy
//! before it may drive the scheduler.

use vstd::prelude::*;

use crate::text::{split_nonempty, split_nonempty_spec};

verus! {

/// The mathematical value of a [`TargetConfig`].
pub struct TargetConfigView {
    pub path: Seq<char>,
    pub interval_seconds: u64,
    pub ignore_patterns: Seq<Seq<char>>,
    pub enabled: bool,
}

/// One directory under snapshot management. The path is the target's
/// identity; the interval drives its scheduler; the ignore patterns are
/// merged into the engine's ignore mechanism at initialization.
pub struct TargetConfig {
    /// Absolute directory path to monitor (also the unique identifier).
    pub path: String,
    /// Commit interval in seconds.
    pub interval_seconds: u64,
    /// Additional ignore patterns for this target.
    pub ignore_patterns: Vec<String>,
    /// Whether this target is enabled.
    pub enabled: bool,
}

impl View for TargetConfig {
    type V = TargetConfigView;

    open spec fn view(&self) -> TargetConfigView {
        TargetConfigView {
            path: self.path@,
            interval_seconds: self.interval_seconds,
            ignore_patterns: self.ignore_patterns.deep_view(),
            enabled: self.enabled,
        }
    }
}

impl DeepView for TargetConfig {
    type V = TargetConfigView;

    open spec fn deep_view(&self) -> TargetConfigView {
        self.view()
    }
}

impl Clone for TargetConfig {
    fn clone(&self) -> (r: Self)
        ensures
            r@ == self@,
    {
        let r = TargetConfig {
            path: self.path.clone(),
            interval_seconds: self.interval_seconds,
            ignore_patterns: self.ignore_patterns.clone(),
            enabled: self.enabled,
        };
        proof {
            assert(r.ignore_patterns.deep_view() =~= self.ignore_patterns.deep_view());
            assert(r@ =~= self@);
        }
        r
    }
}

/// A path's nonempty `/`-separated components with any trailing `.`
/// components removed, as path normalization skips them.
pub open spec fn drop_trailing_dots(pieces: Seq<Seq<char>>) -> Seq<Seq<char>>
    decreases pieces.len(),
{
    if pieces.len() > 0 && pieces.last() == "."@ {
        drop_trailing_dots(pieces.drop_last())
    } else {
        pieces
    }
}

proof fn lemma_drop_trailing_dots(pieces: Seq<Seq<char>>, k: int)
    requires
        0 <= k <= pieces.len(),
        forall|j: int| k <= j < pieces.len() ==> pieces[j] == "."@,
        k == 0 || pieces[k - 1] != "."@,
    ensures
        drop_trailing_dots(pieces) == pieces.take(k),
    decreases pieces.len() - k,
{
    if k == pieces.len() {
        assert(pieces.take(k) =~= pieces);
    } else {
        assert(pieces.last() == "."@);
        lemma_drop_trailing_dots(pieces.drop_last(), k);
        assert(pieces.drop_last().take(k) =~= pieces.take(k));
    }
}

/// The display name of a path: its last `/`-separated component, with
/// empty and trailing `.` components skipped; the whole path when no
/// component is left or the last one is `..` (the same component a
/// filename lookup would report, falling back to the full path where it
/// reports none).
pub open spec fn path_name_spec(path: Seq<char>) -> Seq<char> {
    let pieces = drop_trailing_dots(split_nonempty_spec(path, '/'));
    if pieces.len() > 0 && pieces.last() != ".."@ {
        pieces.last()
    } else {
        path
    }
}

impl TargetConfig {
    /// Returns a display name for this target: the last real component of
    /// its path (skipping `.`), or the whole path when there is none or
    /// the path ends in `..`.
    pub fn name(&self) -> (r: String)
        ensures
            r@ == path_name_spec(self@.path),
    {
        let pieces = split_nonempty(self.path.as_str(), '/');
        let ghost dv = pieces.deep_view();
        let dot = String::from_str(".");
        let mut end: usize = pieces.len();
        loop
            invariant_except_break
                dot@ == "."@,
                dv == pieces.deep_view(),
                dv.len() == pieces.len(),
                end <= pieces.len(),
                forall|j: int| end <= j < dv.len() ==> dv[j] == "."@,
            ensures
                dv == pieces.deep_view(),
                dv.len() == pieces.len(),
                end <= pieces.len(),
                forall|j: int| end <= j < dv.len() ==> dv[j] == "."@,
                end == 0 || dv[end - 1] != "."@,
            decreases end,
        {
            if end == 0 {
                break ;
            }
            let matches_dot = pieces[end - 1].eq(&dot);
            proof {
                assert(dv[end - 1] == pieces@[end - 1]@);
            }
            if !matches_dot {
                break ;
            }
            end = end - 1;
        }
        proof {
            lemma_drop_trailing_dots(dv, end as int);
        }
        if end > 0 {
            let last = &pieces[end - 1];
            if !last.eq(&String::from_str("..")) {
                proof {
                    assert(dv.take(end as int).last() == dv[end - 1]);
                }
                return last.clone();
            }
            proof {
                assert(dv.take(end as int).last() == dv[end - 1]);
            }
        }
        self.path.clone()
    }
}

/// The mathematical value of a [`GitConfig`].
pub struct GitConfigView {
    pub author_name: Seq<char>,
    pub author_email: Seq<char>,
    pub default_ignore_patterns: Seq<Seq<char>>,
}

/// Identity and default ignore patterns handed to the version-control
/// engine.
pub struct GitConfig {
    pub author_name: String,
    pub author_email: String,
    pub default_ignore_patterns: Vec<String>,
}

impl View for GitConfig {
    type V = GitConfigView;

    open spec fn view(&self) -> GitConfigView {
        GitConfigView {
            author_name: self.author_name@,
            author_email: self.author_email@,
            default_ignore_patterns: self.default_ignore_patterns.deep_view(),
        }
    }
}

impl Clone for GitConfig {
    fn clone(&self) -> (r: Self)
        ensures
            r@ == self@,
    {
        let r = GitConfig {
            author_name: self.author_name.clone(),
            author_email: self.author_email.clone(),
            default_ignore_patterns: self.default_ignore_patterns.clone(),
        };
        proof {
            assert(r.default_ignore_patterns.deep_view() =~= self.default_ignore_patterns.deep_view());
            assert(r@ =~= self@);
        }
        r
    }
}

/// The mathematical value of a [`LoggingConfig`].
pub struct LoggingConfigView {
    pub level: Seq<char>,
    pub directory: Option<Seq<char>>,
    pub max_bytes: u64,
    pub max_files: usize,
    pub console: bool,
}

/// Settings of the logging pipeline, validated here and consumed by the
/// unverified logging sink.
pub struct LoggingConfig {
    pub level: String,
    pub directory: Option<String>,
    pub max_bytes: u64,
    pub max_files: usize,
    pub console: bool,
}

impl View for LoggingConfig {
    type V = LoggingConfigView;

    open spec fn view(&self) -> LoggingConfigView {
        LoggingConfigView {
            level: self.level@,
            directory: match self.directory {
                Option::Some(d) => Option::Some(d@),
                Option::None => Option::None,
            },
            max_bytes: self.max_bytes,
            max_files: self.max_files,
            console: self.console,
        }
    }
}

impl Clone for LoggingConfig {
    fn clone(&self) -> (r: Self)
        ensures
            r@ == self@,
    {
        LoggingConfig {
            level: self.level.clone(),
            directory: match &self.directory {
                Option::Some(d) => Option::Some(d.clone()),
                Option::None => Option::None,
            },
            max_bytes: self.max_bytes,
            max_files: self.max_files,
            console: self.console,
        }
    }
}

/// The mathematical value of a [`Config`].
pub struct ConfigView {
    pub schema_version: Seq<char>,
    pub logging: LoggingConfigView,
    pub git: GitConfigView,
    pub targets: Seq<TargetConfigView>,
}

/// A whole configuration: schema version, logging settings, engine
/// identity, and the list of targets.
pub struct Config {
    pub schema_version: String,
    pub logging: LoggingConfig,
    pub git: GitConfig,
    pub targets: Vec<TargetConfig>,
}

impl View for Config {
    type V = ConfigView;

    open spec fn view(&self) -> ConfigView {
        ConfigView {
            schema_version: self.schema_version@,
            logging: self.logging@,
            git: self.git@,
            targets: self.targets.deep_view(),
        }
    }
}

impl Clone for Config {
    fn clone(&self) -> (r: Self)
        ensures
            r@ == self@,
    {
        let mut targets: Vec<TargetConfig> = Vec::new();
        let mut i: usize = 0;
        while i < self.targets.len()
            invariant
                i <= self.targets.len(),
                targets.deep_view() =~= self.targets.deep_view().take(i as int),
            decreases self.targets.len() - i,
        {
            let ghost before = targets.deep_view();
            targets.push(self.targets[i].clone());
            proof {
                assert(targets.deep_view() =~= before.push(self.targets.deep_view()[i as int]));
                assert(self.targets.deep_view().take(i + 1) =~= self.targets.deep_view().take(
                    i as int,
                ).push(self.targets.deep_view()[i as int]));
            }
            i = i + 1;
        }
        proof {
            assert(self.targets.deep_view().take(self.targets.len() as int) =~= self
                .targets
                .deep_view());
        }
        let r = Config {
            schema_version: self.schema_version.clone(),
            logging: self.logging.clone(),
            git: self.git.clone(),
            targets,
        };
        proof {
            assert(r@ =~= self@);
        }
        r
    }
}

/// How the configuration path was chosen.
#[derive(Clone, Copy, PartialEq, Eq, Structural, Debug)]
pub enum ConfigPathKind {
    /// Given on the command line.
    Explicit,
    /// Taken from the environment.
    Env,
    /// The platform default location.
    Default,
}

/// An error raised while loading or validating a configuration. The
/// variants that wrap an underlying failure carry its rendered message.
#[derive(Debug)]
pub enum ConfigError {
    /// Reading the configuration file failed.
    Io { path: String, message: String },
    /// The configuration file did not parse.
    ParseToml { path: String, message: String },
    /// The configuration parsed but is not acceptable.
    Invalid(String),
}

impl ConfigError {
    /// A rendering of the error for display.
    pub fn message(&self) -> (r: String)
        ensures
            match self {
                ConfigError::Invalid(m) => r@ == "invalid configuration: "@ + m@,
                ConfigError::Io { path, message } => r@ == "failed to read config "@ + path@
                    + ": "@ + message@,
                ConfigError::ParseToml { path, message } => r@ == "failed to parse config "@
                    + path@ + ": "@ + message@,
            },
    {
        match self {
            ConfigError::Invalid(m) => {
                let mut r = String::from_str("invalid configuration: ");
                r.append(m.as_str());
                r
            },
            ConfigError::Io { path, message } => {
                let mut r = String::from_str("failed to read config ");
                r.append(path.as_str());
                r.append(": ");
                r.append(message.as_str());
                r
            },
            ConfigError::ParseToml { path, message } => {
                let mut r = String::from_str("failed to parse config ");
                r.append(path.as_str());
                r.append(": ");
                r.append(message.as_str());
                r
            },
        }
    }
}

/// Whether a path is absolute in the POSIX sense.
pub open spec fn is_absolute_path(p: Seq<char>) -> bool {
    p.len() > 0 && p[0] == '/'
}

/// One target acceptable on its own: absolute path and positive interval.
pub open spec fn valid_target(t: TargetConfigView) -> bool {
    is_absolute_path(t.path) && t.interval_seconds > 0
}

/// A configuration acceptable to the daemon: supported schema version,
/// targets valid one by one, and no two targets with the same path.
pub open spec fn valid_config(c: ConfigView, require_targets: bool) -> bool {
    &&& c.schema_version == "1"@
    &&& (require_targets ==> c.targets.len() > 0)
    &&& (forall|i: int| 0 <= i < c.targets.len() ==> valid_target(#[trigger] c.targets[i]))
    &&& (forall|i: int, j: int|
        0 <= i < j < c.targets.len() ==> (#[trigger] c.targets[i]).path != (
        #[trigger] c.targets[j]).path)
}

/// The index of the first target with the given path, when one exists.
pub open spec fn find_target_index(targets: Seq<TargetConfigView>, path: Seq<char>) -> int {
    choose|i: int| 0 <= i < targets.len() && targets[i].path == path
}

/// Whether some target has the given path.
pub open spec fn has_target(targets: Seq<TargetConfigView>, path: Seq<char>) -> bool {
    exists|i: int| 0 <= i < targets.len() && (#[trigger] targets[i]).path == path
}

/// The index of the first target with the given path; the length when
/// there is none.
pub open spec fn find_first_path_index(targets: Seq<TargetConfigView>, path: Seq<char>) -> int
    decreases targets.len(),
{
    if targets.len() == 0 {
        0
    } else if targets[0].path == path {
        0
    } else {
        1 + find_first_path_index(targets.drop_first(), path)
    }
}

proof fn lemma_find_first_path_index(targets: Seq<TargetConfigView>, path: Seq<char>, i: int)
    requires
        0 <= i < targets.len(),
        targets[i].path == path,
        forall|j: int| 0 <= j < i ==> (#[trigger] targets[j]).path != path,
    ensures
        find_first_path_index(targets, path) == i,
    decreases i,
{
    if i > 0 {
        lemma_find_first_path_index(targets.drop_first(), path, i - 1);
        assert(targets.drop_first()[i - 1] == targets[i]);
        assert forall|j: int| 0 <= j < i - 1 implies (#[trigger] targets.drop_first()[j]).path
            != path by {
            assert(targets.drop_first()[j] == targets[j + 1]);
        }
    }
}

impl Config {
    /// Adds a target, refusing a duplicate of an already configured path.
    /// On success the target is appended; on failure nothing changes.
    pub fn add_target(&mut self, target: TargetConfig) -> (r: Result<(), ConfigError>)
        ensures
            has_target(old(self)@.targets, target@.path) ==> {
                &&& r matches Err(ConfigError::Invalid(_))
                &&& final(self)@ == old(self)@
            },
            !has_target(old(self)@.targets, target@.path) ==> {
                &&& r matches Ok(())
                &&& final(self)@.targets == old(self)@.targets.push(target@)
                &&& final(self)@.schema_version == old(self)@.schema_version
                &&& final(self)@.logging == old(self)@.logging
                &&& final(self)@.git == old(self)@.git
            },
    {
        let mut i: usize = 0;
        while i < self.targets.len()
            invariant
                *self == *old(self),
                i <= self.targets.len(),
                forall|j: int| 0 <= j < i ==> (#[trigger] self.targets.deep_view()[j]).path
                    != target@.path,
            decreases self.targets.len() - i,
        {
            if self.targets[i].path.eq(&target.path) {
                proof {
                    assert(old(self)@.targets[i as int].path == target@.path);
                    assert(has_target(old(self)@.targets, target@.path));
                }
                let mut m = String::from_str("target already exists: ");
                m.append(target.path.as_str());
                return Err(ConfigError::Invalid(m));
            }
            i = i + 1;
        }
        let ghost before = self.targets.deep_view();
        proof {
            assert(old(self)@.targets == before);
            assert(!has_target(old(self)@.targets, target@.path)) by {
                if has_target(before, target@.path) {
                    let w = choose|w: int|
                        0 <= w < before.len() && (#[trigger] before[w]).path == target@.path;
                }
            }
        }
        self.targets.push(target);
        proof {
            assert(final(self)@.targets =~= before.push(target@));
        }
        Ok(())
    }

    /// Removes the first target with the given path and returns it; an
    /// unknown path is refused and nothing changes.
    pub fn remove_target(&mut self, path: &String) -> (r: Result<TargetConfig, ConfigError>)
        ensures
            !has_target(old(self)@.targets, path@) ==> {
                &&& r matches Err(ConfigError::Invalid(_))
                &&& final(self)@ == old(self)@
            },
            has_target(old(self)@.targets, path@) ==> {
                let i = find_first_path_index(old(self)@.targets, path@);
                &&& r matches Ok(t) && t@ == old(self)@.targets[i]
                &&& final(self)@.targets == old(self)@.targets.remove(i)
                &&& final(self)@.schema_version == old(self)@.schema_version
                &&& final(self)@.logging == old(self)@.logging
                &&& final(self)@.git == old(self)@.git
            },
    {
        let ghost dv = self.targets.deep_view();
        let mut i: usize = 0;
        while i < self.targets.len()
            invariant
                *self == *old(self),
                dv == self.targets.deep_view(),
                dv.len() == self.targets.len(),
                i <= self.targets.len(),
                forall|j: int| 0 <= j < i ==> (#[trigger] dv[j]).path != path@,
            decreases self.targets.len() - i,
        {
            if self.targets[i].path.eq(path) {
                proof {
                    assert(old(self)@.targets == dv);
                    assert(dv[i as int].path == path@);
                    assert(has_target(old(self)@.targets, path@));
                    lemma_find_first_path_index(dv, path@, i as int);
                }
                let t = self.targets.remove(i);
                proof {
                    assert(t@ == dv[i as int]);
                    assert(final(self)@.targets =~= dv.remove(i as int));
                }
                return Ok(t);
            }
            i = i + 1;
        }
        proof {
            assert(old(self)@.targets == dv);
            assert(!has_target(old(self)@.targets, path@)) by {
                if has_target(dv, path@) {
                    let w = choose|w: int|
                        0 <= w < dv.len() && (#[trigger] dv[w]).path == path@;
                }
            }
        }
        let mut m = String::from_str("target not found: ");
        m.append(path.as_str());
        Err(ConfigError::Invalid(m))
    }

    /// Returns the first target with the given path, when one exists.
    pub fn find_target(&self, path: &String) -> (r: Option<&TargetConfig>)
        ensures
            match r {
                Option::Some(t) => {
                    &&& has_target(self@.targets, path@)
                    &&& t@ == self@.targets[find_first_path_index(self@.targets, path@)]
                },
                Option::None => !has_target(self@.targets, path@),
            },
    {
        let ghost dv = self.targets.deep_view();
        let mut i: usize = 0;
        while i < self.targets.len()
            invariant
                dv == self.targets.deep_view(),
                dv.len() == self.targets.len(),
                i <= self.targets.len(),
                forall|j: int| 0 <= j < i ==> (#[trigger] dv[j]).path != path@,
            decreases self.targets.len() - i,
        {
            if self.targets[i].path.eq(path) {
                proof {
                    assert(self@.targets == dv);
                    assert(dv[i as int].path == path@);
                    assert(has_target(self@.targets, path@));
                    lemma_find_first_path_index(dv, path@, i as int);
                }
                return Some(&self.targets[i]);
            }
            i = i + 1;
        }
        proof {
            assert(self@.targets == dv);
            assert(!has_target(self@.targets, path@)) by {
                if has_target(dv, path@) {
                    let w = choose|w: int|
                        0 <= w < dv.len() && (#[trigger] dv[w]).path == path@;
                }
            }
        }
        None
    }

    /// Returns the first target with the given path for updating, when one
    /// exists; the configuration afterwards is the old one with that entry
    /// replaced by whatever the caller leaves behind.
    pub fn find_target_mut(&mut self, path: &String) -> (r: Option<&mut TargetConfig>)
        ensures
            match r {
                Option::Some(t) => {
                    &&& has_target(old(self)@.targets, path@)
                    &&& (*t)@ == old(self)@.targets[find_first_path_index(
                        old(self)@.targets,
                        path@,
                    )]
                    &&& final(self)@.targets =~= old(self)@.targets.update(
                        find_first_path_index(old(self)@.targets, path@),
                        final(t)@,
                    )
                    &&& final(self)@.schema_version == old(self)@.schema_version
                    &&& final(self)@.logging == old(self)@.logging
                    &&& final(self)@.git == old(self)@.git
                },
                Option::None => {
                    &&& !has_target(old(self)@.targets, path@)
                    &&& final(self)@ == old(self)@
                },
            },
    {
        let ghost dv = self.targets.deep_view();
        let n = self.targets.len();
        let mut i: usize = 0;
        while i < n
            invariant
                *self == *old(self),
                dv == self.targets.deep_view(),
                dv.len() == self.targets.len(),
                n == self.targets.len(),
                i <= n,
                forall|j: int| 0 <= j < i ==> (#[trigger] dv[j]).path != path@,
            decreases n - i,
        {
            if self.targets[i].path.eq(path) {
                proof {
                    assert(old(self)@.targets == dv);
                    assert(dv[i as int].path == path@);
                    assert(has_target(old(self)@.targets, path@));
                    lemma_find_first_path_index(dv, path@, i as int);
                }
                return Some(&mut self.targets[i]);
            }
            i = i + 1;
        }
        proof {
            assert(old(self)@.targets == dv);
            assert(!has_target(old(self)@.targets, path@)) by {
                if has_target(dv, path@) {
                    let w = choose|w: int|
                        0 <= w < dv.len() && (#[trigger] dv[w]).path == path@;
                }
            }
        }
        None
    }

    /// Validates the configuration without requiring any target.
    pub fn validate(&self) -> (r: Result<(), ConfigError>)
        ensures
            r matches Ok(()) <==> valid_config(self@, false),
            r matches Err(e) ==> e matches ConfigError::Invalid(_),
    {
        self.validate_for_daemon(false)
    }

    /// Validates the configuration; in daemon mode at least one target
    /// must be configured. The result is `Ok` exactly when the schema
    /// version is supported, every target has an absolute path and a
    /// positive interval, and no two targets share a path.
    pub fn validate_for_daemon(&self, require_targets: bool) -> (r: Result<(), ConfigError>)
        ensures
            r matches Ok(()) <==> valid_config(self@, require_targets),
            r matches Err(e) ==> e matches ConfigError::Invalid(_),
    {
        if !self.schema_version.eq(&String::from_str("1")) {
            let mut m = String::from_str("unsupported schema_version ");
            m.append(self.schema_version.as_str());
            m.append(", expected 1");
            return Err(ConfigError::Invalid(m));
        }
        if require_targets && self.targets.len() == 0 {
            return Err(ConfigError::Invalid(
                String::from_str("at least one target must be configured"),
            ));
        }
        let ghost dv = self.targets.deep_view();
        let mut i: usize = 0;
        while i < self.targets.len()
            invariant
                dv == self.targets.deep_view(),
                dv.len() == self.targets.len(),
                i <= self.targets.len(),
                forall|j: int| 0 <= j < i ==> valid_target(#[trigger] dv[j]),
                forall|j1: int, j2: int|
                    0 <= j1 < j2 < i ==> (#[trigger] dv[j1]).path != (#[trigger] dv[j2]).path,
            decreases self.targets.len() - i,
        {
            let t = &self.targets[i];
            let absolute = t.path.as_str().unicode_len() > 0 && t.path.as_str().get_char(0) == '/';
            if !absolute {
                proof {
                    assert(self@.targets == dv);
                    assert(!valid_target(self@.targets[i as int]));
                    assert(!valid_config(self@, require_targets));
                }
                let mut m = String::from_str("target path must be absolute: ");
                m.append(t.path.as_str());
                return Err(ConfigError::Invalid(m));
            }
            let mut j: usize = 0;
            while j < i
                invariant
                    dv == self.targets.deep_view(),
                    dv.len() == self.targets.len(),
                    j <= i < self.targets.len(),
                    forall|k: int| 0 <= k < j ==> (#[trigger] dv[k]).path != dv[i as int].path,
                decreases i - j,
            {
                if self.targets[j].path.eq(&self.targets[i].path) {
                    proof {
                        assert(self@.targets == dv);
                        assert(self@.targets[j as int].path == self@.targets[i as int].path);
                        assert(!valid_config(self@, require_targets));
                    }
                    let mut m = String::from_str("duplicate target path: ");
                    m.append(self.targets[i].path.as_str());
                    return Err(ConfigError::Invalid(m));
                }
                j = j + 1;
            }
            if t.interval_seconds == 0 {
                proof {
                    assert(self@.targets == dv);
                    assert(!valid_target(self@.targets[i as int]));
                    assert(!valid_config(self@, require_targets));
                }
                let name = t.name();
                let mut m = String::from_str("target ");
                m.append(name.as_str());
                m.append(" interval_seconds must be > 0");
                return Err(ConfigError::Invalid(m));
            }
            i = i + 1;
        }
        Ok(())
    }

    /// The configuration template written for a fresh installation.
    pub fn default_config_toml() -> (r: String)
        ensures
            r@ == config_template(),
    {
        String::from_str(
            r#"# gsd - git snapshot daemon configuration
schema_version = "1"

[logging]
level = "info"
# directory = "/var/log/gsd"
console = true

[git]
author_name = "gsd"
author_email = "gsd@local"
default_ignore_patterns = ["*.db-wal", "*.db-shm", "*.db-journal"]

# Example target configuration
# [[targets]]
# path = "/home/user/notes"
# interval_seconds = 60
# ignore_patterns = ["*.tmp"]
# enabled = true

# You can also create a .gsdignore file in any target directory
# for target-specific excludes (like .gitignore syntax)
"#,
        )
    }
}

/// The characters of the configuration template.
pub open spec fn config_template() -> Seq<char> {
    r#"# gsd - git snapshot daemon configuration
schema_version = "1"

[logging]
level = "info"
# directory = "/var/log/gsd"
console = true

[git]
author_name = "gsd"
author_email = "gsd@local"
default_ignore_patterns = ["*.db-wal", "*.db-shm", "*.db-journal"]

# Example target configuration
# [[targets]]
# path = "/home/user/notes"
# interval_seconds = 60
# ignore_patterns = ["*.tmp"]
# enabled = true

# You can also create a .gsdignore file in any target directory
# for target-specific excludes (like .gitignore syntax)
"#@
}

/// The schema version this tool reads.
pub fn default_schema_version() -> (r: String)
    ensures
        r@ == "1"@,
{
    String::from_str("1")
}

/// The default logging level.
pub fn default_logging_level() -> (r: String)
    ensures
        r@ == "info"@,
{
    String::from_str("info")
}

/// Whether logging goes to the console by default.
pub fn default_logging_console() -> (r: bool)
    ensures
        r == true,
{
    true
}

/// The default snapshot interval, in seconds.
pub fn default_interval_seconds() -> (r: u64)
    ensures
        r == 60,
{
    60
}

/// The ignore patterns applied to every target unless overridden: the
/// write-ahead and journal files of embedded databases.
pub fn default_ignore_patterns() -> (r: Vec<String>)
    ensures
        r.deep_view() =~= seq!["*.db-wal"@, "*.db-shm"@, "*.db-journal"@],
{
    let mut v: Vec<String> = Vec::new();
    v.push(String::from_str("*.db-wal"));
    v.push(String::from_str("*.db-shm"));
    v.push(String::from_str("*.db-journal"));
    v
}

/// The default author name recorded on snapshots.
pub fn default_author_name() -> (r: String)
    ensures
        r@ == "gsd"@,
{
    String::from_str("gsd")
}

/// The default author email recorded on snapshots.
pub fn default_author_email() -> (r: String)
    ensures
        r@ == "gsd@local"@,
{
    String::from_str("gsd@local")
}

/// Whether a target is enabled when the configuration does not say.
pub fn default_enabled() -> (r: bool)
    ensures
        r == true,
{
    true
}

impl Default for LoggingConfig {
    /// The logging settings used when the configuration has none: level
    /// `info`, console only, no log directory.
    fn default() -> (r: Self)
        ensures
            r@.level == "info"@,
            r@.directory is None,
            r@.max_bytes == 0,
            r@.max_files == 0,
            r@.console == true,
    {
        LoggingConfig {
            level: default_logging_level(),
            directory: None,
            max_bytes: 0,
            max_files: 0,
            console: default_logging_console(),
        }
    }
}

impl Default for GitConfig {
    /// The engine identity and ignore patterns used when the configuration
    /// has none.
    fn default() -> (r: Self)
        ensures
            r@.author_name == "gsd"@,
            r@.author_email == "gsd@local"@,
            r@.default_ignore_patterns =~= seq!["*.db-wal"@, "*.db-shm"@, "*.db-journal"@],
    {
        GitConfig {
            author_name: default_author_name(),
            author_email: default_author_email(),
            default_ignore_patterns: default_ignore_patterns(),
        }
    }
}

impl Default for Config {
    /// An empty configuration with all defaults and no targets.
    fn default() -> (r: Self)
        ensures
            r@.schema_version == "1"@,
            r@.targets =~= Seq::<TargetConfigView>::empty(),
            r@.logging.level == "info"@,
            r@.git.author_name == "gsd"@,
    {
        let r = Config {
            schema_version: default_schema_version(),
            logging: LoggingConfig::default(),
            git: GitConfig::default(),
            targets: Vec::new(),
        };
        proof {
            assert(r@.targets =~= Seq::<TargetConfigView>::empty());
        }
        r
    }
}

} // verus!
