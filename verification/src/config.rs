//! Per-package build configuration, as set by `cargo install-update-config` and turned into
//! `cargo install` arguments.

use vstd::prelude::*;
use crate::text::{strings_view, opt_str_view, copy_opt_string, chars_of, string_of, is_suffix, copy_str};
use crate::sorted::{sorted, keys_of, map_of, set_insert, set_remove, map_insert, map_remove};
use crate::version::VersionReq;

verus! {

/// A single operation to be executed upon configuration of a package.
#[derive(Debug, Clone, PartialEq, Eq, Hash)]
pub enum ConfigOperation {
    /// Set the toolchain to use to compile the package.
    SetToolchain(String),
    /// Use the default toolchain to use to compile the package.
    RemoveToolchain,
    /// Whether to compile the package with the default features.
    DefaultFeatures(bool),
    /// Compile the package with the specified feature.
    AddFeature(String),
    /// Remove the feature from the list of features to compile with.
    RemoveFeature(String),
    /// Set debug mode being enabled to the specified value.
    SetDebugMode(bool),
    /// Set allowing to install prereleases to the specified value.
    SetInstallPrereleases(bool),
    /// Set enforcing Cargo.lock to the specified value.
    SetEnforceLock(bool),
    /// Set installing only the pre-set binaries.
    SetRespectBinaries(bool),
    /// Constrain the installed to the specified one.
    SetTargetVersion(VersionReq),
    /// Always install latest package version.
    RemoveTargetVersion,
    /// Set environment variable to given value for `cargo install`.
    SetEnvironment(String, String),
    /// Remove environment variable for `cargo install`.
    ClearEnvironment(String),
    /// Remove configuration for an environment variable.
    InheritEnvironment(String),
    /// Reset configuration to default values.
    ResetConfig,
}

pub ghost enum ConfigOperationView {
    SetToolchain(Seq<char>),
    RemoveToolchain,
    DefaultFeatures(bool),
    AddFeature(Seq<char>),
    RemoveFeature(Seq<char>),
    SetDebugMode(bool),
    SetInstallPrereleases(bool),
    SetEnforceLock(bool),
    SetRespectBinaries(bool),
    SetTargetVersion(Seq<char>),
    RemoveTargetVersion,
    SetEnvironment(Seq<char>, Seq<char>),
    ClearEnvironment(Seq<char>),
    InheritEnvironment(Seq<char>),
    ResetConfig,
}

impl View for ConfigOperation {
    type V = ConfigOperationView;

    open spec fn view(&self) -> ConfigOperationView {
        match self {
            ConfigOperation::SetToolchain(t) => ConfigOperationView::SetToolchain(t@),
            ConfigOperation::RemoveToolchain => ConfigOperationView::RemoveToolchain,
            ConfigOperation::DefaultFeatures(f) => ConfigOperationView::DefaultFeatures(*f),
            ConfigOperation::AddFeature(f) => ConfigOperationView::AddFeature(f@),
            ConfigOperation::RemoveFeature(f) => ConfigOperationView::RemoveFeature(f@),
            ConfigOperation::SetDebugMode(d) => ConfigOperationView::SetDebugMode(*d),
            ConfigOperation::SetInstallPrereleases(p) => ConfigOperationView::SetInstallPrereleases(*p),
            ConfigOperation::SetEnforceLock(l) => ConfigOperationView::SetEnforceLock(*l),
            ConfigOperation::SetRespectBinaries(b) => ConfigOperationView::SetRespectBinaries(*b),
            ConfigOperation::SetTargetVersion(v) => ConfigOperationView::SetTargetVersion(v.text@),
            ConfigOperation::RemoveTargetVersion => ConfigOperationView::RemoveTargetVersion,
            ConfigOperation::SetEnvironment(k, v) => ConfigOperationView::SetEnvironment(k@, v@),
            ConfigOperation::ClearEnvironment(k) => ConfigOperationView::ClearEnvironment(k@),
            ConfigOperation::InheritEnvironment(k) => ConfigOperationView::InheritEnvironment(k@),
            ConfigOperation::ResetConfig => ConfigOperationView::ResetConfig,
        }
    }
}

/// An environment variable's setting for `cargo install`: a value, or `None` to clear it.
#[derive(Debug, Clone, PartialEq, Eq, Hash)]
pub struct EnvironmentOverride(pub Option<String>);

/// Compilation configuration for one crate.
///
/// `features` is kept sorted without repeats (a set), and `environment` sorted by variable name
/// without repeated names (a map).
#[derive(Debug, Clone, PartialEq, Eq, Hash)]
pub struct PackageConfig {
    /// Toolchain to use to compile the package, or `None` for default.
    pub toolchain: Option<String>,
    /// Whether to compile the package with the default features.
    pub default_features: bool,
    /// Features to compile the package with.
    pub features: Vec<String>,
    /// Whether to compile in debug mode.
    pub debug: Option<bool>,
    /// Whether to install pre-release versions.
    pub install_prereleases: Option<bool>,
    /// Whether to enforce Cargo.lock versions.
    pub enforce_lock: Option<bool>,
    /// Whether to install only the pre-configured binaries.
    pub respect_binaries: Option<bool>,
    /// Versions to constrain to.
    pub target_version: Option<VersionReq>,
    /// Environment variables to alter for cargo.
    pub environment: Option<Vec<(String, EnvironmentOverride)>>,
}

pub ghost struct PackageConfigView {
    pub toolchain: Option<Seq<char>>,
    pub default_features: bool,
    pub features: Set<Seq<char>>,
    pub debug: Option<bool>,
    pub install_prereleases: Option<bool>,
    pub enforce_lock: Option<bool>,
    pub respect_binaries: Option<bool>,
    pub target_version: Option<Seq<char>>,
    pub environment: Option<Map<Seq<char>, Option<Seq<char>>>>,
}

pub open spec fn env_map(e: Seq<(String, EnvironmentOverride)>) -> Map<Seq<char>, Option<Seq<char>>> {
    map_of(e).map_values(|o: EnvironmentOverride| opt_str_view(o.0))
}

impl View for PackageConfig {
    type V = PackageConfigView;

    open spec fn view(&self) -> PackageConfigView {
        PackageConfigView {
            toolchain: opt_str_view(self.toolchain),
            default_features: self.default_features,
            features: strings_view(self.features@).to_set(),
            debug: self.debug,
            install_prereleases: self.install_prereleases,
            enforce_lock: self.enforce_lock,
            respect_binaries: self.respect_binaries,
            target_version: match self.target_version {
                Some(v) => Some(v.text@),
                None => None,
            },
            environment: match self.environment {
                Some(e) => Some(env_map(e@)),
                None => None,
            },
        }
    }
}

impl PackageConfig {
    /// The feature list is a sorted set and the environment a sorted map.
    pub open spec fn wf(&self) -> bool {
        &&& sorted(strings_view(self.features@))
        &&& self.environment matches Some(e) ==> sorted(keys_of(e@))
    }
}

/// The default configuration: default toolchain, default features on, nothing else set.
pub open spec fn default_config() -> PackageConfigView {
    PackageConfigView {
        toolchain: None,
        default_features: true,
        features: Set::empty(),
        debug: None,
        install_prereleases: None,
        enforce_lock: None,
        respect_binaries: None,
        target_version: None,
        environment: None,
    }
}

/// The environment map, created empty if it was unset.
pub open spec fn env_or_empty(e: Option<Map<Seq<char>, Option<Seq<char>>>>) -> Map<Seq<char>, Option<Seq<char>>> {
    match e {
        Some(m) => m,
        None => Map::empty(),
    }
}

/// The configuration after one operation.
pub open spec fn apply_op(c: PackageConfigView, op: ConfigOperationView) -> PackageConfigView {
    match op {
        ConfigOperationView::SetToolchain(t) => PackageConfigView { toolchain: Some(t), ..c },
        ConfigOperationView::RemoveToolchain => PackageConfigView { toolchain: None, ..c },
        ConfigOperationView::DefaultFeatures(f) => PackageConfigView { default_features: f, ..c },
        ConfigOperationView::AddFeature(f) => PackageConfigView { features: c.features.insert(f), ..c },
        ConfigOperationView::RemoveFeature(f) => PackageConfigView { features: c.features.remove(f), ..c },
        ConfigOperationView::SetDebugMode(d) => PackageConfigView { debug: Some(d), ..c },
        ConfigOperationView::SetInstallPrereleases(p) => PackageConfigView { install_prereleases: Some(p), ..c },
        ConfigOperationView::SetEnforceLock(l) => PackageConfigView { enforce_lock: Some(l), ..c },
        ConfigOperationView::SetRespectBinaries(b) => PackageConfigView { respect_binaries: Some(b), ..c },
        ConfigOperationView::SetTargetVersion(v) => PackageConfigView { target_version: Some(v), ..c },
        ConfigOperationView::RemoveTargetVersion => PackageConfigView { target_version: None, ..c },
        ConfigOperationView::SetEnvironment(k, v) => PackageConfigView {
            environment: Some(env_or_empty(c.environment).insert(k, Some(v))),
            ..c
        },
        ConfigOperationView::ClearEnvironment(k) => PackageConfigView {
            environment: Some(env_or_empty(c.environment).insert(k, None)),
            ..c
        },
        ConfigOperationView::InheritEnvironment(k) => PackageConfigView {
            environment: Some(env_or_empty(c.environment).remove(k)),
            ..c
        },
        ConfigOperationView::ResetConfig => default_config(),
    }
}

/// The configuration after a list of operations, applied in order.
pub open spec fn apply_ops(c: PackageConfigView, ops: Seq<ConfigOperationView>) -> PackageConfigView
    decreases ops.len(),
{
    if ops.len() == 0 {
        c
    } else {
        apply_op(apply_ops(c, ops.drop_last()), ops.last())
    }
}

pub open spec fn ops_view(ops: Seq<ConfigOperation>) -> Seq<ConfigOperationView> {
    ops.map_values(|o: ConfigOperation| o@)
}

proof fn lemma_env_insert(e: Seq<(String, EnvironmentOverride)>, e2: Seq<(String, EnvironmentOverride)>, k: Seq<char>, v: EnvironmentOverride)
    requires
        map_of(e2) == map_of(e).insert(k, v),
    ensures
        env_map(e2) == env_map(e).insert(k, opt_str_view(v.0)),
{
    assert(env_map(e2) =~= env_map(e).insert(k, opt_str_view(v.0)));
}

proof fn lemma_env_remove(e: Seq<(String, EnvironmentOverride)>, e2: Seq<(String, EnvironmentOverride)>, k: Seq<char>)
    requires
        map_of(e2) == map_of(e).remove(k),
    ensures
        env_map(e2) == env_map(e).remove(k),
{
    assert(env_map(e2) =~= env_map(e).remove(k));
}

impl Default for PackageConfig {
    fn default() -> (r: PackageConfig)
        ensures
            r@ == default_config(),
            r.wf(),
    {
        let r = PackageConfig {
            toolchain: None,
            default_features: true,
            features: Vec::new(),
            debug: None,
            install_prereleases: None,
            enforce_lock: None,
            respect_binaries: None,
            target_version: None,
            environment: None,
        };
        assert(strings_view(r.features@).to_set() =~= Set::<Seq<char>>::empty());
        r
    }
}

impl PackageConfig {
    /// The default configuration, modified by the given operations in order.
    pub fn from(ops: &[ConfigOperation]) -> (r: PackageConfig)
        ensures
            r.wf(),
            r@ == apply_ops(default_config(), ops_view(ops@)),
    {
        let mut def = PackageConfig::default();
        def.execute_operations(ops);
        def
    }

    /// Applies the given operations in order.
    pub fn execute_operations(&mut self, ops: &[ConfigOperation])
        requires
            old(self).wf(),
        ensures
            final(self).wf(),
            final(self)@ == apply_ops(old(self)@, ops_view(ops@)),
    {
        let ghost start = self@;
        let mut i: usize = 0;
        while i < ops.len()
            invariant
                i <= ops.len(),
                self.wf(),
                self@ == apply_ops(start, ops_view(ops@.subrange(0, i as int))),
            decreases ops.len() - i,
        {
            assert(ops_view(ops@.subrange(0, i + 1)).drop_last() =~= ops_view(ops@.subrange(0, i as int)));
            self.execute_operation(&ops[i]);
            i = i + 1;
        }
        assert(ops@.subrange(0, ops.len() as int) =~= ops@);
    }

    fn execute_operation(&mut self, op: &ConfigOperation)
        requires
            old(self).wf(),
        ensures
            final(self).wf(),
            final(self)@ == apply_op(old(self)@, op@),
    {
        match op {
            ConfigOperation::SetToolchain(t) => {
                self.toolchain = Some(t.clone());
            },
            ConfigOperation::RemoveToolchain => self.toolchain = None,
            ConfigOperation::DefaultFeatures(f) => self.default_features = *f,
            ConfigOperation::AddFeature(f) => set_insert(&mut self.features, f.clone()),
            ConfigOperation::RemoveFeature(f) => set_remove(&mut self.features, f.as_str()),
            ConfigOperation::SetDebugMode(d) => self.debug = Some(*d),
            ConfigOperation::SetInstallPrereleases(p) => self.install_prereleases = Some(*p),
            ConfigOperation::SetEnforceLock(l) => self.enforce_lock = Some(*l),
            ConfigOperation::SetRespectBinaries(b) => self.respect_binaries = Some(*b),
            ConfigOperation::SetTargetVersion(v) => self.target_version = Some(v.duplicate()),
            ConfigOperation::RemoveTargetVersion => self.target_version = None,
            ConfigOperation::SetEnvironment(k, v) => {
                let mut env = self.take_environment();
                let ghost before = env@;
                map_insert(&mut env, k.clone(), EnvironmentOverride(Some(v.clone())));
                proof {
                    lemma_env_insert(before, env@, k@, EnvironmentOverride(Some(*v)));
                }
                self.environment = Some(env);
            },
            ConfigOperation::ClearEnvironment(k) => {
                let mut env = self.take_environment();
                let ghost before = env@;
                map_insert(&mut env, k.clone(), EnvironmentOverride(None));
                proof {
                    lemma_env_insert(before, env@, k@, EnvironmentOverride(None));
                }
                self.environment = Some(env);
            },
            ConfigOperation::InheritEnvironment(k) => {
                let mut env = self.take_environment();
                let ghost before = env@;
                map_remove(&mut env, k.as_str());
                proof {
                    lemma_env_remove(before, env@, k@);
                }
                self.environment = Some(env);
            },
            ConfigOperation::ResetConfig => *self = PackageConfig::default(),
        }
    }

    /// Takes the environment map out, empty if it was unset.
    fn take_environment(&mut self) -> (r: Vec<(String, EnvironmentOverride)>)
        requires
            old(self).wf(),
        ensures
            sorted(keys_of(r@)),
            env_map(r@) == env_or_empty(old(self)@.environment),
            final(self).environment is None,
            final(self).features == old(self).features,
            final(self)@ == (PackageConfigView { environment: None, ..old(self)@ }),
    {
        match self.environment.take() {
            Some(e) => e,
            None => {
                let e: Vec<(String, EnvironmentOverride)> = Vec::new();
                assert(env_map(e@) =~= Map::<Seq<char>, Option<Seq<char>>>::empty());
                e
            },
        }
    }
}

/// The `--features` argument: each feature followed by a space.
pub open spec fn features_text(fs: Seq<Seq<char>>) -> Seq<char>
    decreases fs.len(),
{
    if fs.len() == 0 {
        Seq::empty()
    } else {
        features_text(fs.drop_last()) + fs.last() + seq![' ']
    }
}

/// An executable's name without a trailing `.exe`.
pub open spec fn bin_name(x: Seq<char>) -> Seq<char> {
    if is_suffix(".exe"@, x) {
        x.subrange(0, x.len() - 4)
    } else {
        x
    }
}

/// `--bin NAME` for each executable, in order.
pub open spec fn bin_args(xs: Seq<Seq<char>>) -> Seq<Seq<char>>
    decreases xs.len(),
{
    if xs.len() == 0 {
        Seq::empty()
    } else {
        bin_args(xs.drop_last()) + seq!["--bin"@, bin_name(xs.last())]
    }
}

pub open spec fn toolchain_part(c: PackageConfigView) -> Seq<Seq<char>> {
    match c.toolchain {
        Some(t) => seq![seq!['+'] + t],
        None => Seq::empty(),
    }
}

pub open spec fn default_features_part(c: PackageConfigView) -> Seq<Seq<char>> {
    if !c.default_features {
        seq!["--no-default-features"@]
    } else {
        Seq::empty()
    }
}

pub open spec fn features_part(features: Seq<Seq<char>>) -> Seq<Seq<char>> {
    if features.len() > 0 {
        seq!["--features"@, features_text(features)]
    } else {
        Seq::empty()
    }
}

pub open spec fn locked_part(c: PackageConfigView) -> Seq<Seq<char>> {
    if c.enforce_lock == Some(true) {
        seq!["--locked"@]
    } else {
        Seq::empty()
    }
}

pub open spec fn bins_part(c: PackageConfigView, executables: Seq<Seq<char>>) -> Seq<Seq<char>> {
    if c.respect_binaries == Some(true) {
        bin_args(executables)
    } else {
        Seq::empty()
    }
}

pub open spec fn debug_part(c: PackageConfigView) -> Seq<Seq<char>> {
    if c.debug == Some(true) {
        seq!["--debug"@]
    } else {
        Seq::empty()
    }
}

/// The `cargo` arguments for a configuration whose features, in order, are `features`.
pub open spec fn cargo_args_spec(c: PackageConfigView, features: Seq<Seq<char>>, executables: Seq<Seq<char>>) -> Seq<Seq<char>> {
    toolchain_part(c) + seq!["install"@, "-f"@] + default_features_part(c) + features_part(features)
        + locked_part(c) + bins_part(c, executables) + debug_part(c)
}

fn push_lit(res: &mut Vec<String>, s: &str)
    ensures
        strings_view(final(res)@) == strings_view(old(res)@).push(s@),
{
    res.push(copy_str(s));
    assert(strings_view(res@) =~= strings_view(old(res)@).push(s@));
}

fn push_string(res: &mut Vec<String>, s: String)
    ensures
        strings_view(final(res)@) == strings_view(old(res)@).push(s@),
{
    let ghost sv = s@;
    res.push(s);
    assert(strings_view(res@) =~= strings_view(old(res)@).push(sv));
}

fn strip_exe(x: &String) -> (r: String)
    ensures
        r@ == bin_name(x@),
{
    let v = chars_of(x.as_str());
    let n = v.len();
    proof {
        reveal_strlit(".exe");
    }
    if n >= 4 && v[n - 4] == '.' && v[n - 3] == 'e' && v[n - 2] == 'x' && v[n - 1] == 'e' {
        assert(v@.subrange(n - 4, n as int) =~= ".exe"@);
        string_of(&v, 0, n - 4)
    } else {
        assert(!is_suffix(".exe"@, x@)) by {
            if n >= 4 {
                assert(v@.subrange(n - 4, n as int)[0] == v@[n - 4]);
                assert(v@.subrange(n - 4, n as int)[1] == v@[n - 3]);
                assert(v@.subrange(n - 4, n as int)[2] == v@[n - 2]);
                assert(v@.subrange(n - 4, n as int)[3] == v@[n - 1]);
            }
        }
        string_of(&v, 0, n)
    }
}

impl PackageConfig {
    fn push_toolchain(&self, res: &mut Vec<String>)
        ensures
            strings_view(final(res)@) == strings_view(old(res)@) + toolchain_part(self@),
    {
        if let Some(t) = &self.toolchain {
            let mut a = copy_str("+");
            crate::text::append_str(&mut a, t.as_str());
            proof {
                reveal_strlit("+");
            }
            assert(a@ =~= seq!['+'] + t@);
            push_string(res, a);
            assert(strings_view(res@) =~= strings_view(old(res)@) + toolchain_part(self@));
        } else {
            assert(strings_view(res@) =~= strings_view(old(res)@) + toolchain_part(self@));
        }
    }

    fn push_features(&self, res: &mut Vec<String>)
        ensures
            strings_view(final(res)@) == strings_view(old(res)@) + features_part(strings_view(self.features@)),
    {
        let ghost fv = strings_view(self.features@);
        if self.features.len() > 0 {
            push_lit(res, "--features");
            let mut a = String::new();
            let mut i: usize = 0;
            while i < self.features.len()
                invariant
                    i <= self.features.len(),
                    fv == strings_view(self.features@),
                    a@ == features_text(fv.subrange(0, i as int)),
                decreases self.features.len() - i,
            {
                assert(fv.subrange(0, i + 1).drop_last() =~= fv.subrange(0, i as int));
                crate::text::append_str(&mut a, self.features[i].as_str());
                crate::text::push_char(&mut a, ' ');
                i = i + 1;
            }
            assert(fv.subrange(0, self.features.len() as int) =~= fv);
            push_string(res, a);
            assert(strings_view(res@) =~= strings_view(old(res)@) + features_part(fv));
        } else {
            assert(strings_view(res@) =~= strings_view(old(res)@) + features_part(fv));
        }
    }

    fn push_bins(&self, res: &mut Vec<String>, executables: &[String])
        ensures
            strings_view(final(res)@) == strings_view(old(res)@) + bins_part(self@, strings_view(executables@)),
    {
        let ghost before = strings_view(res@);
        let ghost xv = strings_view(executables@);
        if self.respect_binaries == Some(true) {
            let mut i: usize = 0;
            assert(before =~= before + bin_args(xv.subrange(0, 0)));
            while i < executables.len()
                invariant
                    i <= executables.len(),
                    xv == strings_view(executables@),
                    strings_view(res@) == before + bin_args(xv.subrange(0, i as int)),
                decreases executables.len() - i,
            {
                assert(xv.subrange(0, i + 1).drop_last() =~= xv.subrange(0, i as int));
                push_lit(res, "--bin");
                push_string(res, strip_exe(&executables[i]));
                i = i + 1;
                assert(strings_view(res@) =~= before + bin_args(xv.subrange(0, i as int)));
            }
            assert(xv.subrange(0, executables.len() as int) =~= xv);
        } else {
            assert(strings_view(res@) =~= before + bins_part(self@, xv));
        }
    }

    /// The `cargo` arguments for this configuration: `+TOOLCHAIN`, `install -f`, the feature
    /// switches, `--locked`, `--bin` for each executable (without `.exe`) when binaries are
    /// respected, and `--debug`.
    pub fn cargo_args(&self, executables: &[String]) -> (r: Vec<String>)
        ensures
            strings_view(r@) == cargo_args_spec(self@, strings_view(self.features@), strings_view(executables@)),
    {
        let mut res: Vec<String> = Vec::new();
        assert(strings_view(res@) =~= Seq::<Seq<char>>::empty());
        self.push_toolchain(&mut res);
        let ghost s1 = strings_view(res@);
        push_lit(&mut res, "install");
        push_lit(&mut res, "-f");
        assert(strings_view(res@) =~= s1 + seq!["install"@, "-f"@]);
        let ghost s2 = strings_view(res@);
        if !self.default_features {
            push_lit(&mut res, "--no-default-features");
        }
        assert(strings_view(res@) =~= s2 + default_features_part(self@));
        self.push_features(&mut res);
        let ghost s4 = strings_view(res@);
        if self.enforce_lock == Some(true) {
            push_lit(&mut res, "--locked");
        }
        assert(strings_view(res@) =~= s4 + locked_part(self@));
        self.push_bins(&mut res, executables);
        let ghost s6 = strings_view(res@);
        if self.debug == Some(true) {
            push_lit(&mut res, "--debug");
        }
        assert(strings_view(res@) =~= s6 + debug_part(self@));
        assert(toolchain_part(self@) =~= Seq::<Seq<char>>::empty() + toolchain_part(self@));
        res
    }
}

impl PackageConfig {
    /// Whether this is the default configuration.
    pub fn is_default(&self) -> (r: bool)
        ensures
            r == (self@ == default_config()),
    {
        let r = self.toolchain.is_none() && self.default_features && self.features.len() == 0 && self.debug.is_none()
            && self.install_prereleases.is_none() && self.enforce_lock.is_none() && self.respect_binaries.is_none()
            && self.target_version.is_none() && self.environment.is_none();
        proof {
            if self.features.len() > 0 {
                assert(strings_view(self.features@).to_set().contains(strings_view(self.features@)[0]));
            } else {
                assert(strings_view(self.features@).to_set() =~= Set::empty());
            }
        }
        r
    }

    /// A package's configuration after the operations: the existing one (or the default one)
    /// changed by them; `None` when that is the default configuration, which is not kept.
    pub fn configure(existing: Option<PackageConfig>, ops: &[ConfigOperation]) -> (r: Option<PackageConfig>)
        requires
            existing matches Some(c) ==> c.wf(),
        ensures
            ({
                let res = apply_ops(match existing {
                    Some(c) => c@,
                    None => default_config(),
                }, ops_view(ops@));
                match r {
                    Some(c) => c@ == res && c.wf() && res != default_config(),
                    None => res == default_config(),
                }
            }),
    {
        let cfg = match existing {
            Some(c) => {
                let mut c = c;
                c.execute_operations(ops);
                c
            },
            None => PackageConfig::from(ops),
        };
        if cfg.is_default() {
            None
        } else {
            Some(cfg)
        }
    }
}

/// Applying two lists of operations one after the other is applying their concatenation.
pub proof fn law_operations_compose(c: PackageConfigView, a: Seq<ConfigOperationView>, b: Seq<ConfigOperationView>)
    ensures
        apply_ops(apply_ops(c, a), b) == apply_ops(c, a + b),
    decreases b.len(),
{
    if b.len() == 0 {
        assert(a + b =~= a);
    } else {
        law_operations_compose(c, a, b.drop_last());
        assert((a + b).drop_last() =~= a + b.drop_last());
        assert((a + b).last() == b.last());
    }
}

/// `ResetConfig` brings any configuration back to the default one.
pub proof fn law_reset_gives_default(c: PackageConfigView)
    ensures
        apply_op(c, ConfigOperationView::ResetConfig) == default_config(),
{
}

/// Every operation is idempotent: applying it twice is applying it once.
pub proof fn law_operation_idempotent(c: PackageConfigView, op: ConfigOperationView)
    ensures
        apply_op(apply_op(c, op), op) == apply_op(c, op),
{
    match op {
        ConfigOperationView::AddFeature(f) => {
            assert(c.features.insert(f).insert(f) =~= c.features.insert(f));
        },
        ConfigOperationView::RemoveFeature(f) => {
            assert(c.features.remove(f).remove(f) =~= c.features.remove(f));
        },
        ConfigOperationView::SetEnvironment(k, v) => {
            assert(env_or_empty(c.environment).insert(k, Some(v)).insert(k, Some(v)) =~= env_or_empty(c.environment).insert(k, Some(v)));
        },
        ConfigOperationView::ClearEnvironment(k) => {
            assert(env_or_empty(c.environment).insert(k, None).insert(k, None) =~= env_or_empty(c.environment).insert(k, None));
        },
        ConfigOperationView::InheritEnvironment(k) => {
            assert(env_or_empty(c.environment).remove(k).remove(k) =~= env_or_empty(c.environment).remove(k));
        },
        _ => {},
    }
}

/// Adding a feature and then removing it leaves the feature set without it.
pub proof fn law_add_then_remove_feature(c: PackageConfigView, f: Seq<char>)
    ensures
        apply_op(apply_op(c, ConfigOperationView::AddFeature(f)), ConfigOperationView::RemoveFeature(f)).features
            == c.features.remove(f),
{
    assert(c.features.insert(f).remove(f) =~= c.features.remove(f));
}

/// The default configuration asks for a plain `install -f` (plus `--bin` for nothing).
pub proof fn law_default_arguments(executables: Seq<Seq<char>>)
    ensures
        cargo_args_spec(default_config(), Seq::empty(), executables) == seq!["install"@, "-f"@],
{
    assert(cargo_args_spec(default_config(), Seq::empty(), executables) =~= seq!["install"@, "-f"@]);
}

} // verus!
