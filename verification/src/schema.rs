//! The configuration: its schema, its defaults and its validation.

use crate::addr::{is_socket_addr, known_forms, socket_addr_text};
use crate::text::{begins_with, contains_text, same_text, starts_with, texts, trim, trimmed};
use vstd::prelude::*;
use vstd::seq_lib::lemma_multiset_commutative;

verus! {

/// Why a configuration was not accepted.
#[derive(Debug)]
pub enum ConfigError {
    /// The file at `path` could not be read.
    Read { path: String, source: String },
    /// The file at `path` is not TOML of the schema.
    Parse { path: String, source: String },
    /// The configuration breaks a rule of [`Config::validate`].
    Invalid(String),
}

/// Top-level configuration, mirroring `config.toml`.
#[derive(Debug, Clone)]
pub struct Config {
    pub storage: Storage,
    pub server: Server,
    pub resources: Resources,
    pub defaults: Defaults,
    pub groups: Vec<Group>,
    pub models: Vec<Model>,
}

#[derive(Debug, Clone)]
pub struct Storage {
    pub models_dir: String,
    pub hf_cache_dir: String,
    pub auto_download: bool,
}

#[derive(Debug, Clone)]
pub struct Server {
    pub listen: String,
    pub metrics: bool,
    pub health_check_timeout: u32,
    pub log_level: String,
    /// Whether the arbiter lists aliases next to model names.
    pub list_aliases: bool,
}

#[derive(Debug, Clone)]
pub struct Resources {
    pub vram_budget_mb: u64,
    pub ram_budget_mb: u64,
    pub sample_interval: u64,
}

#[derive(Debug, Clone)]
pub struct Defaults {
    pub ttl: u32,
    pub context_size: u32,
    pub flash_attention: bool,
    pub gpu_layers: u32,
    pub extra_args: Vec<String>,
}

#[derive(Debug, Clone)]
pub struct Group {
    pub name: String,
    pub members: Vec<String>,
    /// When true only one member runs at a time (swap within the group).
    /// Defaults to false so grouped models stay resident together.
    pub swap: bool,
    /// When true, loading a member unloads models belonging to other groups.
    pub exclusive: bool,
}

#[derive(Debug, Clone)]
pub struct Model {
    pub name: String,
    pub description: Option<String>,
    /// Hugging Face repo, e.g. "Qwen/Qwen2.5-Coder-32B-Instruct-GGUF".
    pub hf_repo: Option<String>,
    /// Specific GGUF file within the repo (optional; llama.cpp can infer).
    pub hf_file: Option<String>,
    /// Local GGUF path; relative paths resolve against `storage.models_dir`.
    pub path: Option<String>,
    pub context_size: Option<u32>,
    pub ttl: Option<u32>,
    pub gpu_layers: Option<u32>,
    pub flash_attention: Option<bool>,
    pub aliases: Vec<String>,
    /// Max simultaneous in-flight requests for this model (0 = unlimited).
    pub concurrency_limit: u32,
    pub extra_args: Vec<String>,
}

impl Storage {
    pub open spec fn is_default(self) -> bool {
        &&& self.models_dir@ == "/var/lib/local-llm/models"@
        &&& self.hf_cache_dir@ == "/var/lib/local-llm/hf"@
        &&& self.auto_download
    }
}

impl Default for Storage {
    fn default() -> (r: Self)
        ensures
            r.is_default(),
    {
        Storage {
            models_dir: "/var/lib/local-llm/models".to_owned(),
            hf_cache_dir: "/var/lib/local-llm/hf".to_owned(),
            auto_download: true,
        }
    }
}

impl Server {
    pub open spec fn is_default(self) -> bool {
        &&& self.listen@ == "127.0.0.1:8080"@
        &&& self.metrics
        &&& self.health_check_timeout == 120
        &&& self.log_level@ == "info"@
        &&& !self.list_aliases
    }
}

impl Default for Server {
    fn default() -> (r: Self)
        ensures
            r.is_default(),
    {
        Server {
            listen: "127.0.0.1:8080".to_owned(),
            metrics: true,
            health_check_timeout: 120,
            log_level: "info".to_owned(),
            list_aliases: false,
        }
    }
}

impl Resources {
    pub open spec fn is_default(self) -> bool {
        self == (Resources { vram_budget_mb: 0, ram_budget_mb: 0, sample_interval: 10 })
    }
}

impl Default for Resources {
    fn default() -> (r: Self)
        ensures
            r.is_default(),
    {
        Resources { vram_budget_mb: 0, ram_budget_mb: 0, sample_interval: 10 }
    }
}

impl Defaults {
    pub open spec fn is_default(self) -> bool {
        &&& self.ttl == 300
        &&& self.context_size == 8192
        &&& self.flash_attention
        &&& self.gpu_layers == 99
        &&& self.extra_args@.len() == 0
    }
}

impl Default for Defaults {
    fn default() -> (r: Self)
        ensures
            r.is_default(),
    {
        Defaults {
            ttl: 300,
            context_size: 8192,
            flash_attention: true,
            gpu_layers: 99,
            extra_args: Vec::new(),
        }
    }
}

impl Default for Config {
    fn default() -> (r: Self)
        ensures
            r.storage.is_default(),
            r.server.is_default(),
            r.resources.is_default(),
            r.defaults.is_default(),
            r.groups@.len() == 0,
            r.models@.len() == 0,
    {
        Config {
            storage: Storage::default(),
            server: Server::default(),
            resources: Resources::default(),
            defaults: Defaults::default(),
            groups: Vec::new(),
            models: Vec::new(),
        }
    }
}

impl ConfigError {
    /// The error in words.
    pub open spec fn text(self) -> Seq<char> {
        match self {
            ConfigError::Read { path, source } => "failed to read config "@ + path@ + ": "@ + source@,
            ConfigError::Parse { path, source } => "failed to parse TOML in "@ + path@ + ": "@
                + source@,
            ConfigError::Invalid(reason) => "invalid configuration: "@ + reason@,
        }
    }

    /// The error in words.
    pub fn message(&self) -> (r: String)
        ensures
            r@ == self.text(),
    {
        match self {
            ConfigError::Read { path, source } => "failed to read config ".to_owned().concat(
                path.as_str(),
            ).concat(": ").concat(source.as_str()),
            ConfigError::Parse { path, source } => "failed to parse TOML in ".to_owned().concat(
                path.as_str(),
            ).concat(": ").concat(source.as_str()),
            ConfigError::Invalid(reason) => "invalid configuration: ".to_owned().concat(
                reason.as_str(),
            ),
        }
    }
}

/// The names of the models, in order.
pub open spec fn model_names(models: Seq<Model>) -> Seq<Seq<char>> {
    models.map_values(|m: Model| m.name@)
}

/// The names of the groups, in order.
pub open spec fn group_names(groups: Seq<Group>) -> Seq<Seq<char>> {
    groups.map_values(|g: Group| g.name@)
}

/// Every name a request can be routed by: each model's name, then its aliases.
pub open spec fn routable_names(models: Seq<Model>) -> Seq<Seq<char>>
    decreases models.len(),
{
    if models.len() == 0 {
        Seq::empty()
    } else {
        routable_names(models.drop_last()).push(models.last().name@) + texts(models.last().aliases@)
    }
}

/// What is wrong with model `k`, given that no earlier one is faulty.
pub open spec fn model_fault(models: Seq<Model>, k: int) -> Option<Seq<char>> {
    let m = models[k];
    if trimmed(m.name@).len() == 0 {
        Some("a model has an empty name"@)
    } else if model_names(models).take(k).contains(m.name@) {
        Some("duplicate model name: "@ + m.name@)
    } else if m.hf_repo is None && m.path is None {
        Some("model '"@ + m.name@ + "' must set either `hf_repo` or `path`"@)
    } else if m.hf_repo is Some && m.path is Some {
        Some("model '"@ + m.name@ + "' sets both `hf_repo` and `path`; choose one"@)
    } else {
        None
    }
}

/// The first fault among the first `n` models.
pub open spec fn first_model_fault(models: Seq<Model>, n: int) -> Option<Seq<char>>
    decreases n,
{
    if n <= 0 {
        None
    } else if first_model_fault(models, n - 1) is Some {
        first_model_fault(models, n - 1)
    } else {
        model_fault(models, n - 1)
    }
}

/// The first of the first `n` names that stands earlier in the row too.
pub open spec fn first_repeated(names: Seq<Seq<char>>, n: int) -> Option<Seq<char>>
    decreases n,
{
    if n <= 0 {
        None
    } else if first_repeated(names, n - 1) is Some {
        first_repeated(names, n - 1)
    } else if names.take(n - 1).contains(names[n - 1]) {
        Some(names[n - 1])
    } else {
        None
    }
}

/// The first of the first `n` members that is no model's name.
pub open spec fn first_unknown(members: Seq<Seq<char>>, names: Seq<Seq<char>>, n: int) -> Option<
    Seq<char>,
>
    decreases n,
{
    if n <= 0 {
        None
    } else if first_unknown(members, names, n - 1) is Some {
        first_unknown(members, names, n - 1)
    } else if !names.contains(members[n - 1]) {
        Some(members[n - 1])
    } else {
        None
    }
}

/// What is wrong with group `k`, given that no earlier one is faulty.
pub open spec fn group_fault(groups: Seq<Group>, names: Seq<Seq<char>>, k: int) -> Option<
    Seq<char>,
> {
    let g = groups[k];
    if group_names(groups).take(k).contains(g.name@) {
        Some("duplicate group name: "@ + g.name@)
    } else {
        match first_unknown(texts(g.members@), names, g.members@.len() as int) {
            Some(member) => Some(
                "group '"@ + g.name@ + "' references unknown model '"@ + member + "'"@,
            ),
            None => None,
        }
    }
}

/// The first fault among the first `n` groups.
pub open spec fn first_group_fault(groups: Seq<Group>, names: Seq<Seq<char>>, n: int) -> Option<
    Seq<char>,
>
    decreases n,
{
    if n <= 0 {
        None
    } else if first_group_fault(groups, names, n - 1) is Some {
        first_group_fault(groups, names, n - 1)
    } else {
        group_fault(groups, names, n - 1)
    }
}

impl Config {
    /// Why the configuration is refused, or `None` where it is valid. The checks
    /// run in this order: models, routable names, groups, listen address.
    /// `listen_is_addr` says whether the listen address is a socket address.
    pub open spec fn fault(self, listen_is_addr: bool) -> Option<Seq<char>> {
        let models = self.models@;
        let routable = routable_names(models);
        if models.len() == 0 {
            Some("at least one [[models]] entry is required"@)
        } else if first_model_fault(models, models.len() as int) is Some {
            first_model_fault(models, models.len() as int)
        } else if first_repeated(routable, routable.len() as int) is Some {
            Some(
                "name/alias '"@ + first_repeated(routable, routable.len() as int)->0
                    + "' is used more than once"@,
            )
        } else if first_group_fault(
            self.groups@,
            model_names(models),
            self.groups@.len() as int,
        ) is Some {
            first_group_fault(self.groups@, model_names(models), self.groups@.len() as int)
        } else if !listen_is_addr && !begins_with(self.server.listen@, seq![':']) {
            Some("server.listen '"@ + self.server.listen@ + "' is not a valid host:port"@)
        } else {
            None
        }
    }
}

fn check_models(models: &Vec<Model>) -> (r: Option<String>)
    ensures
        opt_text(r) == first_model_fault(models@, models@.len() as int),
{
    let mut names: Vec<String> = Vec::new();
    let mut k: usize = 0;
    while k < models.len()
        invariant
            k <= models@.len(),
            texts(names@) == model_names(models@).take(k as int),
            first_model_fault(models@, k as int) is None,
        decreases models@.len() - k,
    {
        let m = &models[k];
        let mut fault: Option<String> = None;
        if trim(m.name.as_str()).as_str().is_empty() {
            fault = Some("a model has an empty name".to_owned());
        } else if contains_text(&names, m.name.as_str()) {
            fault = Some("duplicate model name: ".to_owned().concat(m.name.as_str()));
        } else if m.hf_repo.is_none() && m.path.is_none() {
            fault = Some(
                "model '".to_owned().concat(m.name.as_str()).concat(
                    "' must set either `hf_repo` or `path`",
                ),
            );
        } else if m.hf_repo.is_some() && m.path.is_some() {
            fault = Some(
                "model '".to_owned().concat(m.name.as_str()).concat(
                    "' sets both `hf_repo` and `path`; choose one",
                ),
            );
        }
        assert(opt_text(fault) == model_fault(models@, k as int));
        if fault.is_some() {
            proof {
                lemma_model_fault_stays(models@, k as int + 1, models@.len() as int);
            }
            return fault;
        }
        let ghost before = texts(names@);
        names.push(m.name.clone());
        assert(texts(names@) =~= before.push(m.name@));
        k += 1;
        assert(texts(names@) =~= model_names(models@).take(k as int));
    }
    None
}

/// What an optional string holds.
pub open spec fn opt_text(s: Option<String>) -> Option<Seq<char>> {
    match s {
        Some(s) => Some(s@),
        None => None,
    }
}

pub(crate) proof fn lemma_model_fault_stays(models: Seq<Model>, k: int, n: int)
    requires
        0 <= k <= n,
        first_model_fault(models, k) is Some,
    ensures
        first_model_fault(models, n) == first_model_fault(models, k),
    decreases n,
{
    if k < n {
        lemma_model_fault_stays(models, k, n - 1);
    }
}

fn routable(models: &Vec<Model>) -> (r: Vec<String>)
    ensures
        texts(r@) == routable_names(models@),
{
    let mut out: Vec<String> = Vec::new();
    let mut k: usize = 0;
    assert(texts(out@) =~= routable_names(models@.take(0)));
    while k < models.len()
        invariant
            k <= models@.len(),
            texts(out@) == routable_names(models@.take(k as int)),
        decreases models@.len() - k,
    {
        let m = &models[k];
        let ghost before = texts(out@);
        assert(models@.take(k + 1).drop_last() == models@.take(k as int));
        out.push(m.name.clone());
        let ghost named = before.push(m.name@);
        assert(texts(out@) =~= named);
        let mut j: usize = 0;
        while j < m.aliases.len()
            invariant
                j <= m.aliases@.len(),
                texts(out@) == named + texts(m.aliases@).take(j as int),
            decreases m.aliases@.len() - j,
        {
            let ghost so_far = texts(out@);
            out.push(m.aliases[j].clone());
            assert(texts(out@) =~= so_far.push(m.aliases@[j as int]@));
            j += 1;
            assert(texts(out@) =~= named + texts(m.aliases@).take(j as int));
        }
        assert(texts(m.aliases@).take(j as int) =~= texts(m.aliases@));
        k += 1;
    }
    assert(models@.take(models@.len() as int) == models@);
    out
}

fn check_repeated(names: &Vec<String>) -> (r: Option<String>)
    ensures
        opt_text(r) == first_repeated(texts(names@), names@.len() as int),
{
    let mut seen: Vec<String> = Vec::new();
    let mut k: usize = 0;
    while k < names.len()
        invariant
            k <= names@.len(),
            texts(seen@) == texts(names@).take(k as int),
            first_repeated(texts(names@), k as int) is None,
        decreases names@.len() - k,
    {
        if contains_text(&seen, names[k].as_str()) {
            proof {
                lemma_repeated_stays(texts(names@), k as int + 1, names@.len() as int);
            }
            return Some(names[k].clone());
        }
        let ghost before = texts(seen@);
        seen.push(names[k].clone());
        assert(texts(seen@) =~= before.push(names@[k as int]@));
        k += 1;
        assert(texts(seen@) =~= texts(names@).take(k as int));
    }
    None
}

pub(crate) proof fn lemma_repeated_stays(names: Seq<Seq<char>>, k: int, n: int)
    requires
        0 <= k <= n,
        first_repeated(names, k) is Some,
    ensures
        first_repeated(names, n) == first_repeated(names, k),
    decreases n,
{
    if k < n {
        lemma_repeated_stays(names, k, n - 1);
    }
}

fn is_model(models: &Vec<Model>, name: &str) -> (r: bool)
    ensures
        r == model_names(models@).contains(name@),
{
    let mut j: usize = 0;
    while j < models.len()
        invariant
            j <= models@.len(),
            forall|i: int| 0 <= i < j ==> #[trigger] model_names(models@)[i] != name@,
        decreases models@.len() - j,
    {
        assert(model_names(models@)[j as int] == models@[j as int].name@);
        if same_text(models[j].name.as_str(), name) {
            return true;
        }
        j += 1;
    }
    false
}

fn check_members(members: &Vec<String>, models: &Vec<Model>) -> (r: Option<String>)
    ensures
        opt_text(r) == first_unknown(
            texts(members@),
            model_names(models@),
            members@.len() as int,
        ),
{
    let mut k: usize = 0;
    while k < members.len()
        invariant
            k <= members@.len(),
            first_unknown(texts(members@), model_names(models@), k as int) is None,
        decreases members@.len() - k,
    {
        if !is_model(models, members[k].as_str()) {
            proof {
                lemma_unknown_stays(
                    texts(members@),
                    model_names(models@),
                    k as int + 1,
                    members@.len() as int,
                );
            }
            return Some(members[k].clone());
        }
        k += 1;
    }
    None
}

pub(crate) proof fn lemma_unknown_stays(members: Seq<Seq<char>>, names: Seq<Seq<char>>, k: int, n: int)
    requires
        0 <= k <= n,
        first_unknown(members, names, k) is Some,
    ensures
        first_unknown(members, names, n) == first_unknown(members, names, k),
    decreases n,
{
    if k < n {
        lemma_unknown_stays(members, names, k, n - 1);
    }
}

fn check_groups(groups: &Vec<Group>, models: &Vec<Model>) -> (r: Option<String>)
    ensures
        opt_text(r) == first_group_fault(
            groups@,
            model_names(models@),
            groups@.len() as int,
        ),
{
    let mut names: Vec<String> = Vec::new();
    let mut k: usize = 0;
    while k < groups.len()
        invariant
            k <= groups@.len(),
            texts(names@) == group_names(groups@).take(k as int),
            first_group_fault(groups@, model_names(models@), k as int) is None,
        decreases groups@.len() - k,
    {
        let g = &groups[k];
        let mut fault: Option<String> = None;
        if contains_text(&names, g.name.as_str()) {
            fault = Some("duplicate group name: ".to_owned().concat(g.name.as_str()));
        } else {
            match check_members(&g.members, models) {
                Some(member) => {
                    fault = Some(
                        "group '".to_owned().concat(g.name.as_str()).concat(
                            "' references unknown model '",
                        ).concat(member.as_str()).concat("'"),
                    );
                },
                None => {},
            }
        }
        assert(opt_text(fault) == group_fault(groups@, model_names(models@), k as int));
        if fault.is_some() {
            proof {
                lemma_group_fault_stays(
                    groups@,
                    model_names(models@),
                    k as int + 1,
                    groups@.len() as int,
                );
            }
            return fault;
        }
        let ghost before = texts(names@);
        names.push(g.name.clone());
        assert(texts(names@) =~= before.push(g.name@));
        k += 1;
        assert(texts(names@) =~= group_names(groups@).take(k as int));
    }
    None
}

pub(crate) proof fn lemma_group_fault_stays(groups: Seq<Group>, names: Seq<Seq<char>>, k: int, n: int)
    requires
        0 <= k <= n,
        first_group_fault(groups, names, k) is Some,
    ensures
        first_group_fault(groups, names, n) == first_group_fault(groups, names, k),
    decreases n,
{
    if k < n {
        lemma_group_fault_stays(groups, names, k, n - 1);
    }
}

/// What parsing the text at `path` leads to: the configuration where it is valid,
/// else the error in words.
pub open spec fn accepted(parsed: Result<Config, String>, path: Seq<char>) -> Result<
    Config,
    Seq<char>,
> {
    match parsed {
        Err(source) => Err("failed to parse TOML in "@ + path + ": "@ + source@),
        Ok(cfg) => match cfg.fault(socket_addr_text(cfg.server.listen@)) {
            Some(reason) => Err("invalid configuration: "@ + reason),
            None => Ok(cfg),
        },
    }
}

/// What the file at `path` leads to: the configuration where it is valid, else the
/// error in words. The outer `Err` is a file that could not be read, the inner one
/// a text that could not be parsed.
pub open spec fn loaded(file: Result<Result<Config, String>, String>, path: Seq<char>) -> Result<
    Config,
    Seq<char>,
> {
    match file {
        Err(source) => Err("failed to read config "@ + path + ": "@ + source@),
        Ok(parsed) => accepted(parsed, path),
    }
}

/// A result with its error in words.
pub open spec fn in_words(r: Result<Config, ConfigError>) -> Result<Config, Seq<char>> {
    match r {
        Ok(cfg) => Ok(cfg),
        Err(e) => Err(e.text()),
    }
}

impl Config {
    /// Accepts a parsed configuration if it is valid. `parsed` is what parsing the
    /// TOML text gave, `path` where the text came from.
    pub fn from_str(parsed: Result<Config, String>, path: &str) -> (r: Result<Self, ConfigError>)
        ensures
            in_words(r) == accepted(parsed, path@),
            parsed matches Err(cause) ==> (r matches Err(
                ConfigError::Parse { path: p, source },
            ) && p@ == path@ && source == cause),
            parsed matches Ok(cfg) ==> known_forms(cfg.server.listen@) && (r is Ok || r matches Err(
                ConfigError::Invalid(_),
            )),
    {
        match parsed {
            Err(source) => Err(ConfigError::Parse { path: path.to_owned(), source }),
            Ok(cfg) => match cfg.validate() {
                Ok(()) => Ok(cfg),
                Err(e) => Err(e),
            },
        }
    }

    /// Accepts what was read from the file at `path`: the outer `Err` is a file
    /// that could not be read, the inner one a text that could not be parsed.
    pub fn load(file: Result<Result<Config, String>, String>, path: &str) -> (r: Result<
        Self,
        ConfigError,
    >)
        ensures
            in_words(r) == loaded(file, path@),
            file matches Err(cause) ==> (r matches Err(ConfigError::Read { path: p, source })
                && p@ == path@ && source == cause),
            file matches Ok(Err(cause)) ==> (r matches Err(
                ConfigError::Parse { path: p, source },
            ) && p@ == path@ && source == cause),
            file matches Ok(Ok(cfg)) ==> known_forms(cfg.server.listen@) && (r is Ok || r matches Err(
                ConfigError::Invalid(_),
            )),
    {
        match file {
            Err(source) => Err(ConfigError::Read { path: path.to_owned(), source }),
            Ok(parsed) => Config::from_str(parsed, path),
        }
    }

    /// Validate semantic invariants beyond what the type system enforces.
    pub fn validate(&self) -> (r: Result<(), ConfigError>)
        ensures
            match self.fault(socket_addr_text(self.server.listen@)) {
                Some(reason) => r matches Err(ConfigError::Invalid(text)) && text@ == reason,
                None => r is Ok,
            },
            known_forms(self.server.listen@),
    {
        self.validate_given(is_socket_addr(self.server.listen.as_str()))
    }

    /// [`Config::validate`], given whether the listen address is a socket address.
    pub fn validate_given(&self, listen_is_addr: bool) -> (r: Result<(), ConfigError>)
        ensures
            match self.fault(listen_is_addr) {
                Some(reason) => r matches Err(ConfigError::Invalid(text)) && text@ == reason,
                None => r is Ok,
            },
    {
        if self.models.is_empty() {
            return Err(
                ConfigError::Invalid("at least one [[models]] entry is required".to_owned()),
            );
        }
        if let Some(fault) = check_models(&self.models) {
            return Err(ConfigError::Invalid(fault));
        }
        if let Some(name) = check_repeated(&routable(&self.models)) {
            return Err(
                ConfigError::Invalid(
                    "name/alias '".to_owned().concat(name.as_str()).concat(
                        "' is used more than once",
                    ),
                ),
            );
        }
        if let Some(fault) = check_groups(&self.groups, &self.models) {
            return Err(ConfigError::Invalid(fault));
        }
        proof {
            reveal_strlit(":");
            assert(":"@ =~= seq![':']);
        }
        if !listen_is_addr && !starts_with(self.server.listen.as_str(), ":") {
            return Err(
                ConfigError::Invalid(
                    "server.listen '".to_owned().concat(self.server.listen.as_str()).concat(
                        "' is not a valid host:port",
                    ),
                ),
            );
        }
        Ok(())
    }

    /// Effective TTL for a model, falling back to the global default.
    pub fn model_ttl(&self, m: &Model) -> (r: u32)
        ensures
            r == self.ttl_of(*m),
            m.ttl matches Some(own) ==> r == own,
            m.ttl is None ==> r == self.defaults.ttl,
    {
        m.ttl.unwrap_or(self.defaults.ttl)
    }

    /// Effective context size for a model.
    pub fn model_context(&self, m: &Model) -> (r: u32)
        ensures
            r == self.context_of(*m),
            m.context_size matches Some(own) ==> r == own,
            m.context_size is None ==> r == self.defaults.context_size,
    {
        m.context_size.unwrap_or(self.defaults.context_size)
    }

    /// Effective GPU layer count for a model.
    pub fn model_gpu_layers(&self, m: &Model) -> (r: u32)
        ensures
            r == self.gpu_layers_of(*m),
            m.gpu_layers matches Some(own) ==> r == own,
            m.gpu_layers is None ==> r == self.defaults.gpu_layers,
    {
        m.gpu_layers.unwrap_or(self.defaults.gpu_layers)
    }

    /// Effective flash-attention setting for a model.
    pub fn model_flash_attention(&self, m: &Model) -> (r: bool)
        ensures
            r == self.flash_attention_of(*m),
            m.flash_attention matches Some(own) ==> r == own,
            m.flash_attention is None ==> r == self.defaults.flash_attention,
    {
        m.flash_attention.unwrap_or(self.defaults.flash_attention)
    }

    /// The model's own TTL where it sets one, else the default.
    pub open spec fn ttl_of(self, m: Model) -> u32 {
        match m.ttl {
            Some(ttl) => ttl,
            None => self.defaults.ttl,
        }
    }

    /// The model's own context size where it sets one, else the default.
    pub open spec fn context_of(self, m: Model) -> u32 {
        match m.context_size {
            Some(size) => size,
            None => self.defaults.context_size,
        }
    }

    /// The model's own layer count where it sets one, else the default.
    pub open spec fn gpu_layers_of(self, m: Model) -> u32 {
        match m.gpu_layers {
            Some(layers) => layers,
            None => self.defaults.gpu_layers,
        }
    }

    /// The model's own flash-attention setting where it has one, else the
    /// default.
    pub open spec fn flash_attention_of(self, m: Model) -> bool {
        match m.flash_attention {
            Some(on) => on,
            None => self.defaults.flash_attention,
        }
    }
}

/// What every valid configuration has, and only a valid one, given whether its
/// listen address is a socket address.
pub open spec fn is_valid(cfg: Config, listen_is_addr: bool) -> bool {
    let models = cfg.models@;
    &&& models.len() > 0
    &&& forall|k: int|
        0 <= k < models.len() ==> {
            &&& trimmed((#[trigger] models[k]).name@).len() > 0
            &&& models[k].hf_repo is Some <==> models[k].path is None
        }
    &&& model_names(models).no_duplicates()
    &&& routable_names(models).no_duplicates()
    &&& group_names(cfg.groups@).no_duplicates()
    &&& forall|g: int, k: int|
        0 <= g < cfg.groups@.len() && 0 <= k < cfg.groups@[g].members@.len()
            ==> model_names(models).contains((#[trigger] cfg.groups@[g].members@[k])@)
    &&& listen_is_addr || begins_with(cfg.server.listen@, seq![':'])
}

impl Config {
    /// Whether the configuration is valid.
    pub open spec fn valid(self) -> bool {
        is_valid(self, socket_addr_text(self.server.listen@))
    }
}

/// A configuration passes validation exactly where it has models, each model has
/// a name that is not blank and exactly one source, no name or alias is used
/// twice, no group name is used twice, every group member is a model, and the
/// listen address is a socket address or begins with a colon.
pub proof fn accepted_iff_valid(cfg: Config, listen_is_addr: bool)
    ensures
        cfg.fault(listen_is_addr) is None <==> is_valid(cfg, listen_is_addr),
{
    let models = cfg.models@;
    let names = model_names(models);
    let routable = routable_names(models);
    lemma_no_model_fault(models, models.len() as int);
    lemma_none_repeated(routable, routable.len() as int);
    lemma_no_group_fault(cfg.groups@, names, cfg.groups@.len() as int);
    assert(names.take(names.len() as int) == names);
    assert(routable.take(routable.len() as int) == routable);
    assert(group_names(cfg.groups@).take(cfg.groups@.len() as int) == group_names(cfg.groups@));
}

proof fn lemma_distinct_step(s: Seq<Seq<char>>, n: int)
    requires
        0 < n <= s.len(),
    ensures
        s.take(n).no_duplicates() <==> s.take(n - 1).no_duplicates() && !s.take(n - 1).contains(
            s[n - 1],
        ),
{
    let a = s.take(n - 1);
    let b = s.take(n);
    assert(forall|i: int| 0 <= i < n - 1 ==> a[i] == b[i]);
    if b.no_duplicates() {
        assert forall|i: int, j: int| 0 <= i < a.len() && 0 <= j < a.len() && i != j implies a[i]
            != a[j] by {
            assert(b[i] != b[j]);
        }
        if a.contains(s[n - 1]) {
            let i = choose|i: int| 0 <= i < a.len() && a[i] == s[n - 1];
            assert(b[i] != b[n - 1]);
        }
    }
    if a.no_duplicates() && !a.contains(s[n - 1]) {
        assert forall|i: int, j: int| 0 <= i < b.len() && 0 <= j < b.len() && i != j implies b[i]
            != b[j] by {
            if i < n - 1 && j < n - 1 {
                assert(a[i] != a[j]);
            } else if i < n - 1 {
                assert(a.contains(a[i]));
            } else {
                assert(a.contains(a[j]));
            }
        }
    }
}

pub(crate) proof fn lemma_no_model_fault(models: Seq<Model>, n: int)
    requires
        0 <= n <= models.len(),
    ensures
        first_model_fault(models, n) is None <==> {
            &&& forall|k: int|
                0 <= k < n ==> {
                    &&& trimmed((#[trigger] models[k]).name@).len() > 0
                    &&& models[k].hf_repo is Some <==> models[k].path is None
                }
            &&& model_names(models).take(n).no_duplicates()
        },
    decreases n,
{
    if n > 0 {
        lemma_no_model_fault(models, n - 1);
        lemma_distinct_step(model_names(models), n);
        let m = models[n - 1];
        assert(model_names(models)[n - 1] == m.name@);
    }
}

pub(crate) proof fn lemma_none_repeated(names: Seq<Seq<char>>, n: int)
    requires
        0 <= n <= names.len(),
    ensures
        first_repeated(names, n) is None <==> names.take(n).no_duplicates(),
    decreases n,
{
    if n > 0 {
        lemma_none_repeated(names, n - 1);
        lemma_distinct_step(names, n);
    }
}

pub(crate) proof fn lemma_none_unknown(members: Seq<Seq<char>>, names: Seq<Seq<char>>, n: int)
    requires
        0 <= n <= members.len(),
    ensures
        first_unknown(members, names, n) is None <==> forall|k: int|
            0 <= k < n ==> names.contains(#[trigger] members[k]),
    decreases n,
{
    if n > 0 {
        lemma_none_unknown(members, names, n - 1);
    }
}

pub(crate) proof fn lemma_no_group_fault(groups: Seq<Group>, names: Seq<Seq<char>>, n: int)
    requires
        0 <= n <= groups.len(),
    ensures
        first_group_fault(groups, names, n) is None <==> {
            &&& group_names(groups).take(n).no_duplicates()
            &&& forall|g: int, k: int|
                0 <= g < n && 0 <= k < groups[g].members@.len() ==> names.contains(
                    (#[trigger] groups[g].members@[k])@,
                )
        },
    decreases n,
{
    if n > 0 {
        lemma_no_group_fault(groups, names, n - 1);
        lemma_distinct_step(group_names(groups), n);
        let g = groups[n - 1];
        let members = texts(g.members@);
        lemma_none_unknown(members, names, g.members@.len() as int);
        assert(group_names(groups)[n - 1] == g.name@);
        if first_unknown(members, names, g.members@.len() as int) is None {
            assert forall|k: int| 0 <= k < g.members@.len() implies names.contains(
                (#[trigger] groups[n - 1].members@[k])@,
            ) by {
                assert(members[k] == g.members@[k]@);
                assert(names.contains(members[k]));
            }
        } else {
            let k = choose|k: int| 0 <= k < members.len() && !names.contains(#[trigger] members[k]);
            assert(members[k] == groups[n - 1].members@[k]@);
        }
    }
}

/// Whether two configurations differ at most in the order in which they list their
/// models and their groups.
pub open spec fn reordered(a: Config, b: Config) -> bool {
    &&& a.storage == b.storage
    &&& a.server == b.server
    &&& a.resources == b.resources
    &&& a.defaults == b.defaults
    &&& a.models@.to_multiset() == b.models@.to_multiset()
    &&& a.groups@.to_multiset() == b.groups@.to_multiset()
}

/// The texts that `f` gives for the items, in order.
spec fn given_by<T>(items: Seq<T>, f: spec_fn(T) -> Seq<Seq<char>>) -> Seq<Seq<char>>
    decreases items.len(),
{
    if items.len() == 0 {
        Seq::empty()
    } else {
        given_by(items.drop_last(), f) + f(items.last())
    }
}

proof fn lemma_given_by_concat<T>(a: Seq<T>, b: Seq<T>, f: spec_fn(T) -> Seq<Seq<char>>)
    ensures
        given_by(a + b, f) == given_by(a, f) + given_by(b, f),
    decreases b.len(),
{
    if b.len() == 0 {
        assert(a + b =~= a);
        assert(given_by(a, f) + given_by(b, f) =~= given_by(a, f));
    } else {
        lemma_given_by_concat(a, b.drop_last(), f);
        assert((a + b).drop_last() =~= a + b.drop_last());
        assert(given_by(a + b, f) =~= given_by(a, f) + given_by(b, f));
    }
}

/// Taking an item out takes its texts out.
proof fn lemma_given_by_remove<T>(items: Seq<T>, i: int, f: spec_fn(T) -> Seq<Seq<char>>)
    requires
        0 <= i < items.len(),
    ensures
        given_by(items, f).to_multiset() == given_by(items.remove(i), f).to_multiset().add(
            f(items[i]).to_multiset(),
        ),
{
    let head = items.take(i);
    let one = seq![items[i]];
    let tail = items.skip(i + 1);
    assert(items =~= head + one + tail);
    assert(items.remove(i) =~= head + tail);
    lemma_given_by_concat(head + one, tail, f);
    lemma_given_by_concat(head, one, f);
    lemma_given_by_concat(head, tail, f);
    reveal_with_fuel(given_by, 2);
    assert(one.drop_last() =~= Seq::empty());
    assert(given_by(one, f) =~= f(items[i]));
    lemma_multiset_commutative(given_by(head, f) + f(items[i]), given_by(tail, f));
    lemma_multiset_commutative(given_by(head, f), f(items[i]));
    lemma_multiset_commutative(given_by(head, f), given_by(tail, f));
    assert(given_by(items, f).to_multiset() =~= given_by(items.remove(i), f).to_multiset().add(
        f(items[i]).to_multiset(),
    ));
}

proof fn lemma_given_by_reordered<T>(a: Seq<T>, b: Seq<T>, f: spec_fn(T) -> Seq<Seq<char>>)
    requires
        a.to_multiset() == b.to_multiset(),
    ensures
        given_by(a, f).to_multiset() == given_by(b, f).to_multiset(),
    decreases a.len(),
{
    a.to_multiset_ensures();
    b.to_multiset_ensures();
    if a.len() == 0 {
        assert(b =~= a);
    } else {
        let i = a.len() - 1;
        let item = a[i];
        assert(a.contains(item));
        assert(b.to_multiset().count(item) > 0);
        let j = choose|j: int| 0 <= j < b.len() && b[j] == item;
        assert(a.remove(i).to_multiset() =~= b.remove(j).to_multiset());
        lemma_given_by_reordered(a.remove(i), b.remove(j), f);
        lemma_given_by_remove(a, i, f);
        lemma_given_by_remove(b, j, f);
    }
}

proof fn lemma_distinct_reordered(a: Seq<Seq<char>>, b: Seq<Seq<char>>)
    requires
        a.to_multiset() == b.to_multiset(),
        a.no_duplicates(),
    ensures
        b.no_duplicates(),
{
    a.lemma_multiset_has_no_duplicates();
    b.lemma_multiset_has_no_duplicates_conv();
}

spec fn model_name_of() -> spec_fn(Model) -> Seq<Seq<char>> {
    |m: Model| seq![m.name@]
}

spec fn group_name_of() -> spec_fn(Group) -> Seq<Seq<char>> {
    |g: Group| seq![g.name@]
}

spec fn routable_of() -> spec_fn(Model) -> Seq<Seq<char>> {
    |m: Model| seq![m.name@] + texts(m.aliases@)
}

proof fn lemma_model_names_given(models: Seq<Model>)
    ensures
        model_names(models) == given_by(models, model_name_of()),
        routable_names(models) == given_by(models, routable_of()),
    decreases models.len(),
{
    if models.len() > 0 {
        lemma_model_names_given(models.drop_last());
        assert(model_names(models) =~= model_names(models.drop_last()) + seq![models.last().name@]);
        assert(routable_names(models) =~= routable_names(models.drop_last()) + (seq![
            models.last().name@,
        ] + texts(models.last().aliases@)));
    }
}

proof fn lemma_group_names_given(groups: Seq<Group>)
    ensures
        group_names(groups) == given_by(groups, group_name_of()),
    decreases groups.len(),
{
    if groups.len() > 0 {
        lemma_group_names_given(groups.drop_last());
        assert(group_names(groups) =~= group_names(groups.drop_last()) + seq![groups.last().name@]);
    }
}

proof fn lemma_valid_reordered(a: Config, b: Config, listen_is_addr: bool)
    requires
        reordered(a, b),
        is_valid(a, listen_is_addr),
    ensures
        is_valid(b, listen_is_addr),
{
    a.models@.to_multiset_ensures();
    b.models@.to_multiset_ensures();
    a.groups@.to_multiset_ensures();
    b.groups@.to_multiset_ensures();
    lemma_model_names_given(a.models@);
    lemma_model_names_given(b.models@);
    lemma_group_names_given(a.groups@);
    lemma_group_names_given(b.groups@);
    lemma_given_by_reordered(a.models@, b.models@, model_name_of());
    lemma_given_by_reordered(a.models@, b.models@, routable_of());
    lemma_given_by_reordered(a.groups@, b.groups@, group_name_of());
    lemma_distinct_reordered(model_names(a.models@), model_names(b.models@));
    lemma_distinct_reordered(routable_names(a.models@), routable_names(b.models@));
    lemma_distinct_reordered(group_names(a.groups@), group_names(b.groups@));
    let models = b.models@;
    assert forall|k: int| 0 <= k < models.len() implies {
        &&& trimmed((#[trigger] models[k]).name@).len() > 0
        &&& models[k].hf_repo is Some <==> models[k].path is None
    } by {
        assert(models.contains(models[k]));
        assert(a.models@.to_multiset().count(models[k]) > 0);
        let i = choose|i: int| 0 <= i < a.models@.len() && a.models@[i] == models[k];
        assert(trimmed(a.models@[i].name@).len() > 0);
    }
    assert forall|g: int, k: int|
        0 <= g < b.groups@.len() && 0 <= k < b.groups@[g].members@.len() implies model_names(
        models,
    ).contains((#[trigger] b.groups@[g].members@[k])@) by {
        let member = b.groups@[g].members@[k]@;
        assert(b.groups@.contains(b.groups@[g]));
        assert(a.groups@.to_multiset().count(b.groups@[g]) > 0);
        let i = choose|i: int| 0 <= i < a.groups@.len() && a.groups@[i] == b.groups@[g];
        assert(model_names(a.models@).contains(a.groups@[i].members@[k]@));
        model_names(a.models@).to_multiset_ensures();
        model_names(models).to_multiset_ensures();
        assert(model_names(models).to_multiset().count(member) > 0);
    }
}

/// Whether a configuration is valid does not depend on the order in which it lists
/// its models and its groups.
pub proof fn verdict_ignores_order(a: Config, b: Config, listen_is_addr: bool)
    requires
        reordered(a, b),
    ensures
        a.fault(listen_is_addr) is None <==> b.fault(listen_is_addr) is None,
        is_valid(a, listen_is_addr) <==> is_valid(b, listen_is_addr),
{
    accepted_iff_valid(a, listen_is_addr);
    accepted_iff_valid(b, listen_is_addr);
    if is_valid(a, listen_is_addr) {
        lemma_valid_reordered(a, b, listen_is_addr);
    }
    if is_valid(b, listen_is_addr) {
        lemma_valid_reordered(b, a, listen_is_addr);
    }
}

} // verus!
