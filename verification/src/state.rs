//! The daemon's state: the configuration in force, what was generated from it and
//! the latest samples.

use crate::addr::socket_addr_text;
use crate::runtime::{GpuStatus, MemStatus, ModelStatus, Runtime, StatusReport};
use crate::schema::{
    accepted_iff_valid, group_names, loaded, opt_text, Config, Group, Model,
};
use crate::swap::{
    env_text, generate, model_summaries, source_text, summarizes, swap_yaml, Generated,
};
use crate::text::{contains_text, texts};
use vstd::prelude::*;

verus! {

/// What the daemon knows beside its runtime locations.
pub struct Inner {
    /// The last configuration that was applied.
    pub config: Option<Config>,
    /// Why the latest configuration was refused.
    pub config_error: Option<String>,
    /// The YAML that was generated last.
    pub last_yaml: Option<String>,
    pub gpus: Vec<GpuStatus>,
    pub ram: Option<MemStatus>,
}

pub struct SharedState {
    pub rt: Runtime,
    pub inner: Inner,
}

/// Why the daemon could not do what it was asked to.
pub struct Failure {
    pub message: String,
    /// What led to it, where something did.
    pub cause: Option<String>,
}

impl Failure {
    /// The failure with what led to it.
    pub open spec fn chain(self) -> Seq<char> {
        match self.cause {
            Some(cause) => self.message@ + ": "@ + cause@,
            None => self.message@,
        }
    }

    /// The failure with what led to it.
    pub fn detail(&self) -> (r: String)
        ensures
            r@ == self.chain(),
    {
        match &self.cause {
            Some(cause) => self.message.clone().concat(": ").concat(cause.as_str()),
            None => self.message.clone(),
        }
    }
}

/// A configuration that was accepted and whose artifacts are to be written.
pub struct Pending {
    pub config: Config,
    pub generated: Generated,
    /// Whether the generated YAML differs from the last one.
    pub changed: bool,
}

impl Pending {
    /// Whether the artifacts are those of the configuration, which is valid.
    pub open spec fn fits(self, rt: Runtime) -> bool {
        &&& self.generated.yaml@ == swap_yaml(self.config, rt)
        &&& self.generated.env@ == env_text(self.config)
        &&& self.config.valid()
    }
}

/// How writing the two artifacts went.
pub enum Written {
    Both,
    /// The llama-swap config could not be written; why.
    NoSwapConfig(String),
    /// The arbiter's environment file could not be written; why.
    NoEnvFile(String),
}

impl SharedState {
    /// The configuration in force is valid, and the last YAML was generated from
    /// it.
    pub open spec fn consistent(self) -> bool {
        match self.inner.config {
            Some(cfg) => {
                &&& cfg.valid()
                &&& opt_text(self.inner.last_yaml) == Some(swap_yaml(cfg, self.rt))
            },
            None => self.inner.last_yaml is None,
        }
    }

    pub fn new(rt: Runtime) -> (r: Self)
        ensures
            r.rt == rt,
            r.inner.config is None,
            r.inner.config_error is None,
            r.inner.last_yaml is None,
            r.inner.gpus@.len() == 0,
            r.inner.ram is None,
            r.consistent(),
    {
        SharedState {
            rt,
            inner: Inner {
                config: None,
                config_error: None,
                last_yaml: None,
                gpus: Vec::new(),
                ram: None,
            },
        }
    }

    /// Whether `after` and `r` are what a configuration file leads to: the
    /// artifacts to write where it is accepted; else the error, which is all that
    /// changes in the state.
    pub open spec fn regenerates(
        self,
        file: Result<Result<Config, String>, String>,
        after: SharedState,
        r: Result<Pending, Failure>,
    ) -> bool {
        match loaded(file, self.rt.config_path@) {
            Ok(cfg) => {
                &&& after == self
                &&& r matches Ok(p)
                &&& p.config == cfg
                &&& p.fits(self.rt)
                &&& p.changed == (opt_text(self.inner.last_yaml) != Some(swap_yaml(cfg, self.rt)))
            },
            Err(text) => {
                &&& opt_text(after.inner.config_error) == Some(text)
                &&& after == (SharedState {
                    inner: Inner { config_error: after.inner.config_error, ..self.inner },
                    ..self
                })
                &&& r matches Err(f)
                &&& f.message@ == text
                &&& f.cause is None
            },
        }
    }

    /// Takes what was read from the configuration file and generates the
    /// artifacts to be written. Once they are, [`SharedState::commit`] puts the
    /// configuration into force.
    pub fn regenerate(&mut self, file: Result<Result<Config, String>, String>) -> (r: Result<
        Pending,
        Failure,
    >)
        ensures
            old(self).regenerates(file, *final(self), r),
            old(self).consistent() ==> final(self).consistent(),
    {
        proof {
            if let Ok(Ok(ref cfg)) = file {
                accepted_iff_valid(*cfg, socket_addr_text(cfg.server.listen@));
            }
        }
        match Config::load(file, self.rt.config_path.as_str()) {
            Ok(config) => {
                let generated = generate(&config, &self.rt);
                let changed = match &self.inner.last_yaml {
                    Some(yaml) => *yaml != generated.yaml,
                    None => true,
                };
                Ok(Pending { config, generated, changed })
            },
            Err(e) => {
                let text = e.message();
                self.inner.config_error = Some(text.clone());
                Err(Failure { message: text, cause: None })
            },
        }
    }

    /// Whether `after` and `r` are what writing the artifacts leads to: where both
    /// were written, the configuration is in force; else nothing changes.
    pub open spec fn commits(
        self,
        pending: Pending,
        written: Written,
        after: SharedState,
        r: Result<bool, Failure>,
    ) -> bool {
        match written {
            Written::Both => {
                &&& after == (SharedState {
                    inner: Inner {
                        config: Some(pending.config),
                        config_error: None,
                        last_yaml: Some(pending.generated.yaml),
                        ..self.inner
                    },
                    ..self
                })
                &&& r == Ok::<bool, Failure>(pending.changed)
            },
            Written::NoSwapConfig(cause) => {
                &&& after == self
                &&& r matches Err(f)
                &&& f.message@ == "writing llama-swap config"@
                &&& f.cause == Some(cause)
            },
            Written::NoEnvFile(cause) => {
                &&& after == self
                &&& r matches Err(f)
                &&& f.message@ == "writing arbiter env file"@
                &&& f.cause == Some(cause)
            },
        }
    }

    /// Puts a configuration into force once its artifacts were written. Returns
    /// Ok(true) when the generated llama-swap config changed.
    pub fn commit(&mut self, pending: Pending, written: Written) -> (r: Result<bool, Failure>)
        ensures
            old(self).commits(pending, written, *final(self), r),
            old(self).consistent() && pending.fits(old(self).rt) ==> final(self).consistent(),
    {
        match written {
            Written::Both => {
                self.inner.config = Some(pending.config);
                self.inner.config_error = None;
                self.inner.last_yaml = Some(pending.generated.yaml);
                Ok(pending.changed)
            },
            Written::NoSwapConfig(cause) => Err(
                Failure { message: "writing llama-swap config".to_owned(), cause: Some(cause) },
            ),
            Written::NoEnvFile(cause) => Err(
                Failure { message: "writing arbiter env file".to_owned(), cause: Some(cause) },
            ),
        }
    }

    pub fn set_samples(&mut self, gpus: Vec<GpuStatus>, ram: Option<MemStatus>)
        ensures
            *final(self) == (SharedState {
                inner: Inner { gpus, ram, ..old(self).inner },
                ..*old(self)
            }),
            old(self).consistent() ==> final(self).consistent(),
    {
        self.inner.gpus = gpus;
        self.inner.ram = ram;
    }

    /// Seconds between two samples.
    pub open spec fn interval(self) -> nat {
        match self.inner.config {
            Some(cfg) => if cfg.resources.sample_interval == 0 {
                1
            } else {
                cfg.resources.sample_interval as nat
            },
            None => 10,
        }
    }

    /// Seconds between two samples: at least one.
    pub fn sample_interval(&self) -> (r: u64)
        ensures
            r == self.interval(),
            r == (match self.inner.config {
                Some(cfg) => if cfg.resources.sample_interval >= 1 {
                    cfg.resources.sample_interval
                } else {
                    1
                },
                None => 10,
            }),
            r >= 1,
    {
        match &self.inner.config {
            Some(cfg) => if cfg.resources.sample_interval >= 1 {
                cfg.resources.sample_interval
            } else {
                1
            },
            None => 10,
        }
    }

    /// Where the arbiter listens.
    pub open spec fn listens_at(self) -> Seq<char> {
        match self.inner.config {
            Some(cfg) => cfg.server.listen@,
            None => "127.0.0.1:8080"@,
        }
    }

    /// Where the arbiter listens.
    pub fn listen(&self) -> (r: String)
        ensures
            r@ == self.listens_at(),
            r@ == (match self.inner.config {
                Some(cfg) => cfg.server.listen@,
                None => "127.0.0.1:8080"@,
            }),
    {
        match &self.inner.config {
            Some(cfg) => cfg.server.listen.clone(),
            None => "127.0.0.1:8080".to_owned(),
        }
    }

    /// Whether `r` is what validating a configuration file comes to: the error in
    /// words where it is refused.
    pub open spec fn validates(
        self,
        file: Result<Result<Config, String>, String>,
        r: Result<(), String>,
    ) -> bool {
        match loaded(file, self.rt.config_path@) {
            Ok(_) => r is Ok,
            Err(text) => r matches Err(e) && e@ == text,
        }
    }

    /// Whether the on-disk config is valid, without applying it; the error in
    /// words where it is not.
    pub fn validate(&self, file: Result<Result<Config, String>, String>) -> (r: Result<
        (),
        String,
    >)
        ensures
            self.validates(file, r),
    {
        match Config::load(file, self.rt.config_path.as_str()) {
            Ok(_) => Ok(()),
            Err(e) => Err(e.message()),
        }
    }
}

/// Whether a model runs: the arbiter lists its name or one of its aliases.
pub open spec fn runs(m: Model, running: Seq<Seq<char>>) -> bool {
    running.contains(m.name@) || exists|k: int|
        0 <= k < m.aliases@.len() && running.contains((#[trigger] m.aliases@[k])@)
}

/// Whether a report describes a model.
pub open spec fn describes(
    s: ModelStatus,
    cfg: Config,
    m: Model,
    running: Seq<Seq<char>>,
) -> bool {
    &&& s.name@ == m.name@
    &&& s.source@ == source_text(cfg, m)
    &&& texts(s.aliases@) == texts(m.aliases@)
    &&& s.ttl == cfg.ttl_of(m)
    &&& s.running == runs(m, running)
}

impl SharedState {
    /// Whether a report describes the state, given which models run.
    pub open spec fn reported_by(self, running: Seq<Seq<char>>, report: StatusReport) -> bool {
        &&& report.config_path@ == self.rt.config_path@
        &&& report.config_valid == (self.inner.config is Some && self.inner.config_error is None)
        &&& opt_text(report.config_error) == opt_text(self.inner.config_error)
        &&& report.gpus@ == self.inner.gpus@
        &&& report.ram == self.inner.ram
        &&& texts(report.running@) == running
        &&& match self.inner.config {
            Some(cfg) => {
                &&& report.listen@ == cfg.server.listen@
                &&& report.models@.len() == cfg.models@.len()
                &&& forall|i: int|
                    0 <= i < report.models@.len() ==> describes(
                        #[trigger] report.models@[i],
                        cfg,
                        cfg.models@[i],
                        running,
                    )
                &&& texts(report.groups@) == group_names(cfg.groups@)
            },
            None => {
                &&& report.listen@.len() == 0
                &&& report.models@.len() == 0
                &&& report.groups@.len() == 0
            },
        }
    }

    /// Build a full status report for the CLI, from the names that the arbiter
    /// lists as running.
    pub fn status(&self, running: Vec<String>) -> (r: StatusReport)
        ensures
            self.reported_by(texts(running@), r),
    {
        let mut models: Vec<ModelStatus> = Vec::new();
        let mut groups: Vec<String> = Vec::new();
        let mut listen = String::new();
        if let Some(cfg) = &self.inner.config {
            models = model_statuses(cfg, &running);
            groups = names_of_groups(&cfg.groups);
            listen = cfg.server.listen.clone();
        }
        StatusReport {
            config_path: self.rt.config_path.clone(),
            config_valid: self.inner.config.is_some() && self.inner.config_error.is_none(),
            config_error: match &self.inner.config_error {
                Some(e) => Some(e.clone()),
                None => None,
            },
            listen,
            models,
            groups,
            gpus: clone_gpus(&self.inner.gpus),
            ram: self.inner.ram,
            running,
        }
    }
}

fn clone_gpus(v: &Vec<GpuStatus>) -> (r: Vec<GpuStatus>)
    ensures
        r@ == v@,
{
    let mut out: Vec<GpuStatus> = Vec::new();
    let mut i: usize = 0;
    while i < v.len()
        invariant
            i <= v@.len(),
            out@ == v@.take(i as int),
        decreases v@.len() - i,
    {
        out.push(v[i].clone());
        i += 1;
    }
    assert(v@.take(v@.len() as int) == v@);
    out
}

fn names_of_groups(groups: &Vec<Group>) -> (r: Vec<String>)
    ensures
        texts(r@) == group_names(groups@),
{
    let mut out: Vec<String> = Vec::new();
    let mut i: usize = 0;
    while i < groups.len()
        invariant
            i <= groups@.len(),
            out@.len() == i,
            forall|k: int| 0 <= k < i ==> (#[trigger] out@[k])@ == groups@[k].name@,
        decreases groups@.len() - i,
    {
        out.push(groups[i].name.clone());
        i += 1;
    }
    assert(texts(out@) =~= group_names(groups@));
    out
}

fn any_runs(aliases: &Vec<String>, running: &Vec<String>) -> (r: bool)
    ensures
        r == exists|k: int|
            0 <= k < aliases@.len() && texts(running@).contains((#[trigger] aliases@[k])@),
{
    let mut i: usize = 0;
    while i < aliases.len()
        invariant
            i <= aliases@.len(),
            forall|k: int|
                0 <= k < i ==> !texts(running@).contains((#[trigger] aliases@[k])@),
        decreases aliases@.len() - i,
    {
        if contains_text(running, aliases[i].as_str()) {
            return true;
        }
        i += 1;
    }
    false
}

fn model_statuses(cfg: &Config, running: &Vec<String>) -> (r: Vec<ModelStatus>)
    ensures
        r@.len() == cfg.models@.len(),
        forall|i: int|
            0 <= i < r@.len() ==> describes(
                #[trigger] r@[i],
                *cfg,
                cfg.models@[i],
                texts(running@),
            ),
{
    let summaries = model_summaries(cfg);
    let ghost all = summaries@;
    let mut out: Vec<ModelStatus> = Vec::new();
    for summary in it: summaries
        invariant
            it.seq() == all,
            all.len() == cfg.models@.len(),
            forall|i: int|
                0 <= i < all.len() ==> summarizes(
                    #[trigger] all[i],
                    *cfg,
                    cfg.models@[i],
                ),
            out@.len() == it.index(),
            forall|i: int|
                0 <= i < out@.len() ==> describes(
                    #[trigger] out@[i],
                    *cfg,
                    cfg.models@[i],
                    texts(running@),
                ),
    {
        let ghost m = cfg.models@[it.index() as int];
        assert(summarizes(summary, *cfg, m));
        let (name, source, aliases, ttl) = summary;
        let is_running = contains_text(running, name.as_str()) || any_runs(&aliases, running);
        assert(is_running == runs(m, texts(running@))) by {
            assert(aliases@.len() == texts(aliases@).len());
            assert(m.aliases@.len() == texts(m.aliases@).len());
            assert forall|k: int| 0 <= k < aliases@.len() implies (#[trigger] aliases@[k])@
                == m.aliases@[k]@ by {
                assert(texts(aliases@)[k] == texts(m.aliases@)[k]);
            }
            assert forall|k: int| 0 <= k < m.aliases@.len() implies (#[trigger] m.aliases@[k])@
                == aliases@[k]@ by {
                assert(texts(aliases@)[k] == texts(m.aliases@)[k]);
            }
        }
        out.push(ModelStatus { name, source, aliases, ttl, running: is_running });
    }
    out
}

/// Once a configuration is in force, reading the same configuration again
/// generates no change.
pub proof fn unchanged_config_settles(
    before: SharedState,
    pending: Pending,
    in_force: SharedState,
    committed: Result<bool, Failure>,
    file: Result<Result<Config, String>, String>,
    after: SharedState,
    r: Result<Pending, Failure>,
)
    requires
        pending.fits(before.rt),
        before.commits(pending, Written::Both, in_force, committed),
        loaded(file, before.rt.config_path@) == Ok::<Config, Seq<char>>(pending.config),
        in_force.regenerates(file, after, r),
    ensures
        r is Ok,
        !r->Ok_0.changed,
        after == in_force,
{
}

/// A configuration that is refused leaves the one in force and its artifacts as
/// they were; the status report shows the error, and the models, groups and
/// endpoint of the configuration in force.
pub proof fn refused_config_keeps_previous(
    before: SharedState,
    file: Result<Result<Config, String>, String>,
    after: SharedState,
    r: Result<Pending, Failure>,
    running: Seq<Seq<char>>,
    report: StatusReport,
)
    requires
        loaded(file, before.rt.config_path@) is Err,
        before.regenerates(file, after, r),
        after.reported_by(running, report),
    ensures
        after.inner.config == before.inner.config,
        after.inner.last_yaml == before.inner.last_yaml,
        !report.config_valid,
        opt_text(report.config_error) == Some(loaded(file, before.rt.config_path@)->Err_0),
        before.reported_by(
            running,
            (StatusReport {
                config_valid: before.inner.config is Some && before.inner.config_error is None,
                config_error: before.inner.config_error,
                ..report
            }),
        ),
{
}

/// A configuration whose artifacts were written is the one that the status report
/// shows, as valid.
pub proof fn applied_config_is_reported(
    before: SharedState,
    pending: Pending,
    after: SharedState,
    r: Result<bool, Failure>,
    running: Seq<Seq<char>>,
    report: StatusReport,
)
    requires
        before.commits(pending, Written::Both, after, r),
        after.reported_by(running, report),
    ensures
        report.config_valid,
        report.config_error is None,
        report.listen@ == pending.config.server.listen@,
        report.models@.len() == pending.config.models@.len(),
        forall|i: int|
            0 <= i < report.models@.len() ==> describes(
                #[trigger] report.models@[i],
                pending.config,
                pending.config.models@[i],
                running,
            ),
        texts(report.groups@) == group_names(pending.config.groups@),
{
}

/// Reading and writing a configuration reports a change exactly where the YAML
/// after it differs from the YAML before it.
pub proof fn change_is_in_the_yaml(
    before: SharedState,
    file: Result<Result<Config, String>, String>,
    between: SharedState,
    read: Result<Pending, Failure>,
    after: SharedState,
    r: Result<bool, Failure>,
)
    requires
        before.regenerates(file, between, read),
        read is Ok,
        between.commits(read->Ok_0, Written::Both, after, r),
    ensures
        r == Ok::<bool, Failure>(
            opt_text(before.inner.last_yaml) != opt_text(after.inner.last_yaml),
        ),
{
}

/// What happens to the daemon's state.
pub enum Step {
    /// This was read from the configuration file.
    Read(Result<Result<Config, String>, String>),
    /// These artifacts were written, or not.
    Wrote(Pending, Written),
    /// These samples were taken.
    Sampled(Vec<GpuStatus>, Option<MemStatus>),
}

impl SharedState {
    /// Whether `after` is the state after a step.
    pub open spec fn becomes(self, step: Step, after: SharedState) -> bool {
        match step {
            Step::Read(file) => exists|r: Result<Pending, Failure>|
                #[trigger] self.regenerates(file, after, r),
            Step::Wrote(pending, written) => exists|r: Result<bool, Failure>|
                #[trigger] self.commits(pending, written, after, r),
            Step::Sampled(gpus, ram) => after == (SharedState {
                inner: Inner { gpus, ram, ..self.inner },
                ..self
            }),
        }
    }
}

/// Whether `states` are the states before, between and after the steps.
pub open spec fn is_history(states: Seq<SharedState>, steps: Seq<Step>) -> bool {
    &&& states.len() == steps.len() + 1
    &&& forall|i: int|
        0 <= i < steps.len() ==> (#[trigger] states[i]).becomes(steps[i], states[i + 1])
}

/// The error of the latest configuration that was refused since a configuration
/// was last put into force.
pub open spec fn standing_error(steps: Seq<Step>, path: Seq<char>) -> Option<Seq<char>>
    decreases steps.len(),
{
    if steps.len() == 0 {
        None
    } else {
        let before = standing_error(steps.drop_last(), path);
        match steps.last() {
            Step::Read(file) => match loaded(file, path) {
                Err(text) => Some(text),
                Ok(_) => before,
            },
            Step::Wrote(_, Written::Both) => None,
            _ => before,
        }
    }
}

/// The configuration whose artifacts were last written.
pub open spec fn last_written(steps: Seq<Step>) -> Option<Config>
    decreases steps.len(),
{
    if steps.len() == 0 {
        None
    } else {
        match steps.last() {
            Step::Wrote(pending, Written::Both) => Some(pending.config),
            _ => last_written(steps.drop_last()),
        }
    }
}

/// From its start on, the daemon keeps the configuration whose artifacts were last
/// written, and the error of the latest configuration that was refused since then.
pub proof fn history_is_kept(states: Seq<SharedState>, steps: Seq<Step>)
    requires
        is_history(states, steps),
        states[0].inner.config is None,
        states[0].inner.config_error is None,
    ensures
        states.last().rt == states[0].rt,
        states.last().inner.config == last_written(steps),
        opt_text(states.last().inner.config_error) == standing_error(
            steps,
            states[0].rt.config_path@,
        ),
    decreases steps.len(),
{
    if steps.len() > 0 {
        let n = steps.len() - 1;
        let earlier = states.drop_last();
        let shorter = steps.drop_last();
        assert forall|i: int| 0 <= i < shorter.len() implies (#[trigger] earlier[i]).becomes(
            shorter[i],
            earlier[i + 1],
        ) by {
            assert(states[i].becomes(steps[i], states[i + 1]));
        }
        history_is_kept(earlier, shorter);
        assert(earlier.last() == states[n]);
        assert(states[n].becomes(steps[n], states[n + 1]));
    }
}

} // verus!
