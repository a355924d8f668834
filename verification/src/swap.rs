//! What is generated from the configuration: llama-swap's YAML config and the
//! systemd environment file the arbiter is launched with.

use crate::order::{
    insert_after, insert_keeps_order, insert_new_key, insert_ordered, insert_then_look_up, less,
    less_irreflexive, looked_up, ordered, ordered_rows_agree, text_less,
};
use crate::runtime::{join_path, path_in, Runtime};
use crate::schema::{
    group_names, is_valid, model_names, reordered, verdict_ignores_order, Config, Group, Model,
};
use crate::shell::{
    all_plain, is_plain, line_is_read_back, quoted, quoted_each, shell_quote, shell_words,
};
use crate::text::{clone_texts, decimal, join, joined, push_text, same_text, texts, to_decimal};
use crate::yaml::{
    entries, has_key, insert, new_mapping, to_text, yaml_text, YamlValue, YamlView,
};
use vstd::prelude::*;

verus! {

/// Generated artifacts ready to be written to the runtime directory.
#[derive(Debug)]
pub struct Generated {
    pub yaml: String,
    pub env: String,
}

/// Resolve a possibly-relative local model path against the models directory.
pub fn resolve_model_path(models_dir: &str, path: &str) -> (r: String)
    ensures
        r@ == path_in(models_dir@, path@),
{
    join_path(models_dir, path)
}

/// The arguments that tell `llama-server` where the model comes from.
pub open spec fn source_args(cfg: Config, m: Model) -> Seq<Seq<char>> {
    match (m.hf_repo, m.path) {
        (Some(repo), _) => {
            let repo_args = seq!["--hf-repo"@, quoted(repo@)];
            match m.hf_file {
                Some(file) => repo_args + seq!["--hf-file"@, quoted(file@)],
                None => repo_args,
            }
        },
        (None, Some(path)) => seq!["--model"@, quoted(path_in(cfg.storage.models_dir@, path@))],
        (None, None) => Seq::empty(),
    }
}

/// Each argument, quoted.
pub open spec fn quoted_all(args: Seq<String>) -> Seq<Seq<char>> {
    args.map_values(|a: String| quoted(a@))
}

/// The words of the `llama-server` command line for a model, with `port` where the
/// port goes.
pub open spec fn command_words(cfg: Config, rt: Runtime, m: Model, port: Seq<char>) -> Seq<
    Seq<char>,
> {
    seq![quoted(rt.llama_server@), "--port"@, port, "--host"@, "127.0.0.1"@] + source_args(cfg, m)
        + seq![
        "--ctx-size"@,
        decimal(cfg.context_of(m) as nat),
        "--n-gpu-layers"@,
        decimal(cfg.gpu_layers_of(m) as nat),
    ] + (if cfg.flash_attention_of(m) {
        seq!["--flash-attn"@, "on"@]
    } else {
        Seq::empty()
    }) + quoted_all(cfg.defaults.extra_args@) + quoted_all(m.extra_args@)
}

/// The `llama-server` command line for a model, with a placeholder for the port,
/// which llama-swap fills in.
pub open spec fn command(cfg: Config, rt: Runtime, m: Model) -> Seq<char> {
    joined(command_words(cfg, rt, m, "${PORT}"@), " "@)
}

fn push_quoted(args: &mut Vec<String>, extra: &Vec<String>)
    ensures
        texts(final(args)@) == texts(old(args)@) + quoted_all(extra@),
{
    let ghost before = texts(args@);
    let mut i: usize = 0;
    assert(before + quoted_all(extra@).take(0) =~= before);
    while i < extra.len()
        invariant
            i <= extra@.len(),
            texts(args@) == before + quoted_all(extra@).take(i as int),
        decreases extra@.len() - i,
    {
        push_text(args, shell_quote(extra[i].as_str()));
        i += 1;
        assert(texts(args@) =~= before + quoted_all(extra@).take(i as int));
    }
    assert(quoted_all(extra@).take(i as int) =~= quoted_all(extra@));
}

/// Build the `llama-server` command line for a single model.
pub fn build_cmd(cfg: &Config, rt: &Runtime, m: &Model) -> (r: String)
    ensures
        r@ == command(*cfg, *rt, *m),
{
    let mut args: Vec<String> = Vec::new();
    push_text(&mut args, shell_quote(rt.llama_server.as_str()));
    push_text(&mut args, "--port".to_owned());
    push_text(&mut args, "${PORT}".to_owned());
    push_text(&mut args, "--host".to_owned());
    push_text(&mut args, "127.0.0.1".to_owned());
    let ghost head = seq![
        quoted(rt.llama_server@),
        "--port"@,
        "${PORT}"@,
        "--host"@,
        "127.0.0.1"@,
    ];
    assert(texts(args@) =~= head);

    if let Some(repo) = &m.hf_repo {
        push_text(&mut args, "--hf-repo".to_owned());
        push_text(&mut args, shell_quote(repo.as_str()));
        if let Some(file) = &m.hf_file {
            push_text(&mut args, "--hf-file".to_owned());
            push_text(&mut args, shell_quote(file.as_str()));
        }
    } else if let Some(path) = &m.path {
        let resolved = resolve_model_path(cfg.storage.models_dir.as_str(), path.as_str());
        push_text(&mut args, "--model".to_owned());
        push_text(&mut args, shell_quote(resolved.as_str()));
    }
    let ghost with_source = head + source_args(*cfg, *m);
    assert(texts(args@) =~= with_source);

    push_text(&mut args, "--ctx-size".to_owned());
    push_text(&mut args, to_decimal(cfg.model_context(m) as u64));
    push_text(&mut args, "--n-gpu-layers".to_owned());
    push_text(&mut args, to_decimal(cfg.model_gpu_layers(m) as u64));
    let ghost sized = with_source + seq![
        "--ctx-size"@,
        decimal(cfg.context_of(*m) as nat),
        "--n-gpu-layers"@,
        decimal(cfg.gpu_layers_of(*m) as nat),
    ];
    assert(texts(args@) =~= sized);

    if cfg.model_flash_attention(m) {
        push_text(&mut args, "--flash-attn".to_owned());
        push_text(&mut args, "on".to_owned());
    }
    assert(texts(args@) =~= sized + (if cfg.flash_attention_of(*m) {
        seq!["--flash-attn"@, "on"@]
    } else {
        Seq::empty()
    }));

    push_quoted(&mut args, &cfg.defaults.extra_args);
    push_quoted(&mut args, &m.extra_args);
    join(&args, " ")
}

/// Where a model comes from, in words.
pub open spec fn source_text(cfg: Config, m: Model) -> Seq<char> {
    match (m.hf_repo, m.path) {
        (Some(repo), _) => match m.hf_file {
            Some(file) => "hf:"@ + repo@ + "/"@ + file@,
            None => "hf:"@ + repo@,
        },
        (None, Some(path)) => path_in(cfg.storage.models_dir@, path@),
        (None, None) => "<none>"@,
    }
}

/// Where a model comes from, in words.
pub fn model_source(cfg: &Config, m: &Model) -> (r: String)
    ensures
        r@ == source_text(*cfg, *m),
{
    if let Some(repo) = &m.hf_repo {
        match &m.hf_file {
            Some(file) => "hf:".to_owned().concat(repo.as_str()).concat("/").concat(file.as_str()),
            None => "hf:".to_owned().concat(repo.as_str()),
        }
    } else if let Some(path) = &m.path {
        resolve_model_path(cfg.storage.models_dir.as_str(), path.as_str())
    } else {
        "<none>".to_owned()
    }
}

/// Whether the number is zero.
pub fn is_zero(v: &u32) -> (r: bool)
    ensures
        r == (*v == 0),
{
    *v == 0
}

/// llama-swap's entry for a model. A description, aliases and a concurrency limit
/// stand in it only where the model has them.
pub open spec fn model_block(cfg: Config, rt: Runtime, m: Model) -> Seq<(Seq<char>, YamlView)> {
    seq![("cmd"@, YamlView::Text(command(cfg, rt, m))), ("name"@, YamlView::Text(m.name@))] + (
    match m.description {
        Some(d) => seq![("description"@, YamlView::Text(d@))],
        None => Seq::empty(),
    }) + (if m.aliases@.len() > 0 {
        seq![("aliases"@, YamlView::List(texts(m.aliases@)))]
    } else {
        Seq::empty()
    }) + seq![("ttl"@, YamlView::Number(cfg.ttl_of(m) as nat))] + (if m.concurrency_limit > 0 {
        seq![("concurrencyLimit"@, YamlView::Number(m.concurrency_limit as nat))]
    } else {
        Seq::empty()
    })
}

/// llama-swap's entry for a group.
pub open spec fn group_block(g: Group) -> Seq<(Seq<char>, YamlView)> {
    seq![
        ("swap"@, YamlView::Bool(g.swap)),
        ("exclusive"@, YamlView::Bool(g.exclusive)),
        ("members"@, YamlView::List(texts(g.members@))),
    ]
}

/// The entries of the first `n` models, in the order of their names; of models
/// with one name the last one counts.
pub open spec fn models_section(cfg: Config, rt: Runtime, n: int) -> Seq<(Seq<char>, YamlView)>
    decreases n,
{
    if n <= 0 {
        Seq::empty()
    } else {
        let m = cfg.models@[n - 1];
        insert_ordered(
            models_section(cfg, rt, n - 1),
            m.name@,
            YamlView::Block(model_block(cfg, rt, m)),
        )
    }
}

/// The entries of the first `n` groups, in the order of their names; of groups
/// with one name the last one counts.
pub open spec fn groups_section(cfg: Config, n: int) -> Seq<(Seq<char>, YamlView)>
    decreases n,
{
    if n <= 0 {
        Seq::empty()
    } else {
        let g = cfg.groups@[n - 1];
        insert_ordered(groups_section(cfg, n - 1), g.name@, YamlView::Block(group_block(g)))
    }
}

/// llama-swap's configuration document.
pub open spec fn swap_document(cfg: Config, rt: Runtime) -> Seq<(Seq<char>, YamlView)> {
    seq![
        ("healthCheckTimeout"@, YamlView::Number(cfg.server.health_check_timeout as nat)),
        ("logLevel"@, YamlView::Text(cfg.server.log_level@)),
        ("startPort"@, YamlView::Number(9800)),
        ("includeAliasesInList"@, YamlView::Bool(cfg.server.list_aliases)),
        ("models"@, YamlView::Block(models_section(cfg, rt, cfg.models@.len() as int))),
    ] + (if cfg.groups@.len() > 0 {
        seq![("groups"@, YamlView::Block(groups_section(cfg, cfg.groups@.len() as int)))]
    } else {
        Seq::empty()
    })
}

pub(crate) proof fn lemma_model_keys()
    ensures
        "cmd"@ != "name"@,
        "cmd"@ != "description"@,
        "cmd"@ != "aliases"@,
        "cmd"@ != "ttl"@,
        "cmd"@ != "concurrencyLimit"@,
        "name"@ != "description"@,
        "name"@ != "aliases"@,
        "name"@ != "ttl"@,
        "name"@ != "concurrencyLimit"@,
        "description"@ != "aliases"@,
        "description"@ != "ttl"@,
        "description"@ != "concurrencyLimit"@,
        "aliases"@ != "ttl"@,
        "aliases"@ != "concurrencyLimit"@,
        "ttl"@ != "concurrencyLimit"@,
{
    reveal_strlit("cmd");
    assert("cmd"@.len() == 3);
    reveal_strlit("name");
    assert("name"@.len() == 4);
    reveal_strlit("description");
    assert("description"@.len() == 11);
    reveal_strlit("aliases");
    assert("aliases"@.len() == 7);
    reveal_strlit("ttl");
    assert("ttl"@.len() == 3);
    reveal_strlit("concurrencyLimit");
    assert("concurrencyLimit"@.len() == 16);
    assert("cmd"@[0] == 'c' && "ttl"@[0] == 't');
}

pub(crate) proof fn lemma_group_keys()
    ensures
        "swap"@ != "exclusive"@,
        "swap"@ != "members"@,
        "exclusive"@ != "members"@,
{
    reveal_strlit("swap");
    assert("swap"@.len() == 4);
    reveal_strlit("exclusive");
    assert("exclusive"@.len() == 9);
    reveal_strlit("members");
    assert("members"@.len() == 7);
}

pub(crate) proof fn lemma_document_keys()
    ensures
        "healthCheckTimeout"@ != "logLevel"@,
        "healthCheckTimeout"@ != "startPort"@,
        "healthCheckTimeout"@ != "includeAliasesInList"@,
        "healthCheckTimeout"@ != "models"@,
        "healthCheckTimeout"@ != "groups"@,
        "logLevel"@ != "startPort"@,
        "logLevel"@ != "includeAliasesInList"@,
        "logLevel"@ != "models"@,
        "logLevel"@ != "groups"@,
        "startPort"@ != "includeAliasesInList"@,
        "startPort"@ != "models"@,
        "startPort"@ != "groups"@,
        "includeAliasesInList"@ != "models"@,
        "includeAliasesInList"@ != "groups"@,
        "models"@ != "groups"@,
{
    reveal_strlit("healthCheckTimeout");
    assert("healthCheckTimeout"@.len() == 18);
    reveal_strlit("logLevel");
    assert("logLevel"@.len() == 8);
    reveal_strlit("startPort");
    assert("startPort"@.len() == 9);
    reveal_strlit("includeAliasesInList");
    assert("includeAliasesInList"@.len() == 20);
    reveal_strlit("models");
    assert("models"@.len() == 6);
    reveal_strlit("groups");
    assert("groups"@.len() == 6);
    assert("models"@[0] == 'm' && "groups"@[0] == 'g');
}

fn model_mapping(cfg: &Config, rt: &Runtime, m: &Model) -> (r: serde_yaml::Mapping)
    ensures
        entries(r) == Some(model_block(*cfg, *rt, *m)),
{
    proof {
        lemma_model_keys();
    }
    let mut out = new_mapping();
    insert(&mut out, "cmd", YamlValue::Text(build_cmd(cfg, rt, m)));
    insert(&mut out, "name", YamlValue::Text(m.name.clone()));
    if let Some(d) = &m.description {
        insert(&mut out, "description", YamlValue::Text(d.clone()));
    }
    if !m.aliases.is_empty() {
        insert(&mut out, "aliases", YamlValue::List(clone_texts(&m.aliases)));
    }
    insert(&mut out, "ttl", YamlValue::Number(cfg.model_ttl(m)));
    if !is_zero(&m.concurrency_limit) {
        insert(&mut out, "concurrencyLimit", YamlValue::Number(m.concurrency_limit));
    }
    assert(entries(out)->0 =~= model_block(*cfg, *rt, *m));
    out
}

fn group_mapping(g: &Group) -> (r: serde_yaml::Mapping)
    ensures
        entries(r) == Some(group_block(*g)),
{
    proof {
        lemma_group_keys();
    }
    let mut out = new_mapping();
    insert(&mut out, "swap", YamlValue::Bool(g.swap));
    insert(&mut out, "exclusive", YamlValue::Bool(g.exclusive));
    insert(&mut out, "members", YamlValue::List(clone_texts(&g.members)));
    assert(entries(out)->0 =~= group_block(*g));
    out
}

/// What a row of named mappings holds.
pub open spec fn listed(v: Seq<(String, serde_yaml::Mapping)>) -> Seq<(Seq<char>, YamlView)> {
    v.map_values(|e: (String, serde_yaml::Mapping)| (e.0@, YamlView::Block(entries(e.1)->0)))
}

/// Whether what each mapping of a row holds is known.
pub open spec fn all_known(v: Seq<(String, serde_yaml::Mapping)>) -> bool {
    forall|i: int| 0 <= i < v.len() ==> entries((#[trigger] v[i]).1) is Some
}

/// Puts a mapping under its name.
fn put_named(v: &mut Vec<(String, serde_yaml::Mapping)>, name: String, block: serde_yaml::Mapping)
    requires
        all_known(old(v)@),
        entries(block) is Some,
    ensures
        all_known(final(v)@),
        listed(final(v)@) == insert_ordered(
            listed(old(v)@),
            name@,
            YamlView::Block(entries(block)->0),
        ),
{
    let ghost before = listed(v@);
    let ghost value = YamlView::Block(entries(block)->0);
    let mut p: usize = 0;
    while p < v.len() && !same_text(v[p].0.as_str(), name.as_str()) && !less(
        name.as_str(),
        v[p].0.as_str(),
    )
        invariant
            p <= v@.len(),
            before == listed(v@),
            all_known(v@),
            forall|i: int|
                0 <= i < p ==> (#[trigger] before[i]).0 != name@ && !text_less(name@, before[i].0),
        decreases v@.len() - p,
    {
        assert(before[p as int].0 == v@[p as int].0@);
        p += 1;
    }
    proof {
        insert_after(before, name@, value, p as int);
    }
    let ghost tail = before.skip(p as int);
    if p < v.len() {
        assert(tail[0] == before[p as int] && before[p as int].0 == v@[p as int].0@);
        if same_text(v[p].0.as_str(), name.as_str()) {
            v[p] = (name, block);
            assert(listed(v@) =~= before.take(p as int) + (seq![(name@, value)]
                + tail.drop_first()));
            return ;
        }
    }
    v.insert(p, (name, block));
    assert(listed(v@) =~= before.take(p as int) + (seq![(name@, value)] + tail));
    proof {
        if tail.len() == 0 {
            assert(seq![(name@, value)] + tail =~= seq![(name@, value)]);
        }
    }
}

/// The mapping with the named mappings as its entries.
fn as_mapping(v: Vec<(String, serde_yaml::Mapping)>) -> (r: serde_yaml::Mapping)
    requires
        ordered(listed(v@)),
        all_known(v@),
    ensures
        entries(r) == Some(listed(v@)),
{
    let mut out = new_mapping();
    let ghost all = listed(v@);
    let ghost items = v@;
    assert(entries(out)->0 =~= all.take(0));
    for e in it: v
        invariant
            it.seq() == items,
            all == listed(items),
            ordered(all),
            all_known(items),
            entries(out) == Some(all.take(it.index() as int)),
    {
        let ghost i = it.index() as int;
        assert(e == items[i]);
        assert(all[i] == (e.0@, YamlView::Block(entries(e.1)->0)));
        assert(!has_key(all.take(i), e.0@)) by {
            if has_key(all.take(i), e.0@) {
                let k = choose|k: int| 0 <= k < i && (#[trigger] all.take(i)[k]).0 == e.0@;
                assert(all[k].0 == e.0@);
                assert(text_less(all[k].0, all[i].0));
                less_irreflexive(e.0@);
            }
        }
        let (name, block) = e;
        insert(&mut out, name.as_str(), YamlValue::Block(block));
        assert(entries(out)->0 =~= all.take(i + 1));
    }
    assert(all.take(all.len() as int) =~= all);
    out
}

fn models_mapping(cfg: &Config, rt: &Runtime) -> (r: serde_yaml::Mapping)
    ensures
        entries(r) == Some(models_section(*cfg, *rt, cfg.models@.len() as int)),
{
    let mut named: Vec<(String, serde_yaml::Mapping)> = Vec::new();
    let mut i: usize = 0;
    assert(listed(named@) =~= models_section(*cfg, *rt, 0));
    while i < cfg.models.len()
        invariant
            i <= cfg.models@.len(),
            listed(named@) == models_section(*cfg, *rt, i as int),
            ordered(listed(named@)),
            all_known(named@),
        decreases cfg.models@.len() - i,
    {
        let m = &cfg.models[i];
        let block = model_mapping(cfg, rt, m);
        proof {
            insert_keeps_order(listed(named@), m.name@, YamlView::Block(entries(block)->0));
        }
        put_named(&mut named, m.name.clone(), block);
        i += 1;
    }
    as_mapping(named)
}

fn groups_mapping(cfg: &Config) -> (r: serde_yaml::Mapping)
    ensures
        entries(r) == Some(groups_section(*cfg, cfg.groups@.len() as int)),
{
    let mut named: Vec<(String, serde_yaml::Mapping)> = Vec::new();
    let mut i: usize = 0;
    assert(listed(named@) =~= groups_section(*cfg, 0));
    while i < cfg.groups.len()
        invariant
            i <= cfg.groups@.len(),
            listed(named@) == groups_section(*cfg, i as int),
            ordered(listed(named@)),
            all_known(named@),
        decreases cfg.groups@.len() - i,
    {
        let g = &cfg.groups[i];
        let block = group_mapping(g);
        proof {
            insert_keeps_order(listed(named@), g.name@, YamlView::Block(entries(block)->0));
        }
        put_named(&mut named, g.name.clone(), block);
        i += 1;
    }
    as_mapping(named)
}

/// llama-swap's configuration document.
pub fn document(cfg: &Config, rt: &Runtime) -> (r: serde_yaml::Mapping)
    ensures
        entries(r) == Some(swap_document(*cfg, *rt)),
{
    proof {
        lemma_document_keys();
    }
    let mut doc = new_mapping();
    insert(
        &mut doc,
        "healthCheckTimeout",
        YamlValue::Number(cfg.server.health_check_timeout),
    );
    insert(&mut doc, "logLevel", YamlValue::Text(cfg.server.log_level.clone()));
    insert(&mut doc, "startPort", YamlValue::Number(9800));
    insert(&mut doc, "includeAliasesInList", YamlValue::Bool(cfg.server.list_aliases));
    insert(&mut doc, "models", YamlValue::Block(models_mapping(cfg, rt)));
    if !cfg.groups.is_empty() {
        insert(&mut doc, "groups", YamlValue::Block(groups_mapping(cfg)));
    }
    assert(entries(doc)->0 =~= swap_document(*cfg, *rt));
    doc
}

/// The comment at the top of the generated YAML.
pub const YAML_HEADER: &'static str = "# Generated by local-llm-resourced from /etc/local-llm/config.toml.\n# Do not edit by hand; run `local-llm configure` instead.\n";

/// The generated llama-swap YAML.
pub open spec fn swap_yaml(cfg: Config, rt: Runtime) -> Seq<char> {
    YAML_HEADER@ + yaml_text(swap_document(cfg, rt))
}

/// Generate the llama-swap YAML and the arbiter environment file.
pub fn generate(cfg: &Config, rt: &Runtime) -> (r: Generated)
    ensures
        r.yaml@ == swap_yaml(*cfg, *rt),
        r.env@ == env_text(*cfg),
{
    let doc = document(cfg, rt);
    let yaml = YAML_HEADER.to_owned().concat(to_text(&doc).as_str());
    Generated { yaml, env: build_env(cfg) }
}

/// The lines of the arbiter's environment file.
pub open spec fn env_lines(cfg: Config) -> Seq<Seq<char>> {
    seq![
        "# Generated by local-llm-resourced. Do not edit by hand."@,
        "LOCAL_LLM_LISTEN="@ + cfg.server.listen@,
        "LLAMA_CACHE="@ + cfg.storage.models_dir@,
        "HF_HOME="@ + cfg.storage.hf_cache_dir@,
        "HF_HUB_CACHE="@ + cfg.storage.hf_cache_dir@,
    ] + (if cfg.storage.auto_download {
        Seq::empty()
    } else {
        seq!["HF_HUB_OFFLINE=1"@]
    })
}

/// The arbiter's environment file: its lines, each with a line feed behind it.
pub open spec fn env_text(cfg: Config) -> Seq<char> {
    joined(env_lines(cfg).push(Seq::empty()), "\n"@)
}

/// Build the systemd EnvironmentFile contents for the arbiter.
pub fn build_env(cfg: &Config) -> (r: String)
    ensures
        r@ == env_text(*cfg),
{
    let mut lines: Vec<String> = Vec::new();
    push_text(
        &mut lines,
        "# Generated by local-llm-resourced. Do not edit by hand.".to_owned(),
    );
    push_text(&mut lines, "LOCAL_LLM_LISTEN=".to_owned().concat(cfg.server.listen.as_str()));
    // llama.cpp downloads GGUFs into LLAMA_CACHE; keep models on the
    // user-chosen drive. HF_HOME holds the broader Hugging Face cache.
    push_text(&mut lines, "LLAMA_CACHE=".to_owned().concat(cfg.storage.models_dir.as_str()));
    push_text(&mut lines, "HF_HOME=".to_owned().concat(cfg.storage.hf_cache_dir.as_str()));
    push_text(&mut lines, "HF_HUB_CACHE=".to_owned().concat(cfg.storage.hf_cache_dir.as_str()));
    if !cfg.storage.auto_download {
        push_text(&mut lines, "HF_HUB_OFFLINE=1".to_owned());
    }
    assert(texts(lines@) =~= env_lines(*cfg));
    push_text(&mut lines, String::new());
    join(&lines, "\n")
}

/// The arguments that tell `llama-server` where the model comes from, as a shell
/// hands them on.
pub open spec fn source_words(cfg: Config, m: Model) -> Seq<Seq<char>> {
    match (m.hf_repo, m.path) {
        (Some(repo), _) => seq!["--hf-repo"@, repo@] + (match m.hf_file {
            Some(file) => seq!["--hf-file"@, file@],
            None => Seq::empty(),
        }),
        (None, Some(path)) => seq!["--model"@, path_in(cfg.storage.models_dir@, path@)],
        (None, None) => Seq::empty(),
    }
}

/// The words that a shell hands to `llama-server`, the program first.
pub open spec fn command_args(cfg: Config, rt: Runtime, m: Model, port: Seq<char>) -> Seq<
    Seq<char>,
> {
    seq![rt.llama_server@, "--port"@, port, "--host"@, "127.0.0.1"@] + source_words(cfg, m)
        + seq![
        "--ctx-size"@,
        decimal(cfg.context_of(m) as nat),
        "--n-gpu-layers"@,
        decimal(cfg.gpu_layers_of(m) as nat),
    ] + (if cfg.flash_attention_of(m) {
        seq!["--flash-attn"@, "on"@]
    } else {
        Seq::empty()
    }) + texts(cfg.defaults.extra_args@) + texts(m.extra_args@)
}

proof fn lemma_decimal_is_plain(n: nat)
    ensures
        decimal(n).len() > 0,
        all_plain(decimal(n)),
    decreases n,
{
    if n >= 10 {
        lemma_decimal_is_plain(n / 10);
        let s = decimal(n);
        assert forall|i: int| 0 <= i < s.len() implies is_plain(#[trigger] s[i]) by {
            if i < s.len() - 1 {
                assert(s[i] == decimal(n / 10)[i]);
            }
        }
    }
}

proof fn lemma_fixed_words()
    ensures
        quoted("--port"@) == "--port"@,
        quoted("--host"@) == "--host"@,
        quoted("127.0.0.1"@) == "127.0.0.1"@,
        quoted("--hf-repo"@) == "--hf-repo"@,
        quoted("--hf-file"@) == "--hf-file"@,
        quoted("--model"@) == "--model"@,
        quoted("--ctx-size"@) == "--ctx-size"@,
        quoted("--n-gpu-layers"@) == "--n-gpu-layers"@,
        quoted("--flash-attn"@) == "--flash-attn"@,
        quoted("on"@) == "on"@,
{
    reveal_strlit("--port");
    reveal_strlit("--host");
    reveal_strlit("127.0.0.1");
    reveal_strlit("--hf-repo");
    reveal_strlit("--hf-file");
    reveal_strlit("--model");
    reveal_strlit("--ctx-size");
    reveal_strlit("--n-gpu-layers");
    reveal_strlit("--flash-attn");
    reveal_strlit("on");
}

proof fn lemma_quoted_concat(a: Seq<Seq<char>>, b: Seq<Seq<char>>)
    ensures
        quoted_each(a + b) == quoted_each(a) + quoted_each(b),
{
    assert(quoted_each(a + b) =~= quoted_each(a) + quoted_each(b));
}

proof fn lemma_source_quoted(cfg: Config, m: Model)
    ensures
        quoted_each(source_words(cfg, m)) == source_args(cfg, m),
{
    lemma_fixed_words();
    assert(quoted_each(source_words(cfg, m)) =~= source_args(cfg, m));
}

proof fn lemma_extra_quoted(args: Seq<String>)
    ensures
        quoted_each(texts(args)) == quoted_all(args),
{
    assert(quoted_each(texts(args)) =~= quoted_all(args));
}

/// Once a port stands in the place of its placeholder, a shell reads the command
/// line of a model as exactly these words: the server, its fixed arguments, the
/// model's source, sizes and flags, and the extra arguments of the defaults and of
/// the model, each as it was configured.
pub proof fn command_is_read_back(cfg: Config, rt: Runtime, m: Model, port: nat)
    ensures
        shell_words(joined(command_words(cfg, rt, m, decimal(port)), " "@)) == Some(
            command_args(cfg, rt, m, decimal(port)),
        ),
{
    let words = command_args(cfg, rt, m, decimal(port));
    assert(quoted_each(words) == command_words(cfg, rt, m, decimal(port))) by {
        let head = seq![rt.llama_server@, "--port"@, decimal(port), "--host"@, "127.0.0.1"@];
        let source = source_words(cfg, m);
        let sizes = seq![
            "--ctx-size"@,
            decimal(cfg.context_of(m) as nat),
            "--n-gpu-layers"@,
            decimal(cfg.gpu_layers_of(m) as nat),
        ];
        let flags = if cfg.flash_attention_of(m) {
            seq!["--flash-attn"@, "on"@]
        } else {
            Seq::empty()
        };
        let common = texts(cfg.defaults.extra_args@);
        let own = texts(m.extra_args@);
        lemma_quoted_concat(head, source);
        lemma_quoted_concat(head + source, sizes);
        lemma_quoted_concat(head + source + sizes, flags);
        lemma_quoted_concat(head + source + sizes + flags, common);
        lemma_quoted_concat(head + source + sizes + flags + common, own);
        lemma_source_quoted(cfg, m);
        lemma_extra_quoted(cfg.defaults.extra_args@);
        lemma_extra_quoted(m.extra_args@);
        lemma_fixed_words();
        lemma_decimal_is_plain(port);
        lemma_decimal_is_plain(cfg.context_of(m) as nat);
        lemma_decimal_is_plain(cfg.gpu_layers_of(m) as nat);
        assert(quoted_each(head) =~= seq![
            quoted(rt.llama_server@),
            "--port"@,
            decimal(port),
            "--host"@,
            "127.0.0.1"@,
        ]);
        assert(quoted_each(sizes) =~= sizes);
        assert(quoted_each(flags) =~= flags);
    }
    assert(" "@ =~= seq![' ']) by {
        reveal_strlit(" ");
    }
    line_is_read_back(words);
}

proof fn lemma_models_section(cfg: Config, rt: Runtime, n: int)
    requires
        0 <= n <= cfg.models@.len(),
        model_names(cfg.models@).no_duplicates(),
    ensures
        models_section(cfg, rt, n).len() == n,
        ordered(models_section(cfg, rt, n)),
        forall|i: int|
            #![trigger cfg.models@[i]]
            0 <= i < n ==> looked_up(models_section(cfg, rt, n), cfg.models@[i].name@) == Some(
                YamlView::Block(model_block(cfg, rt, cfg.models@[i])),
            ),
        forall|key: Seq<char>|
            #[trigger] looked_up(models_section(cfg, rt, n), key) is Some ==> model_names(
                cfg.models@,
            ).take(n).contains(key),
    decreases n,
{
    if n > 0 {
        lemma_models_section(cfg, rt, n - 1);
        let names = model_names(cfg.models@);
        let before = models_section(cfg, rt, n - 1);
        let m = cfg.models@[n - 1];
        let block = YamlView::Block(model_block(cfg, rt, m));
        assert(names[n - 1] == m.name@);
        if looked_up(before, m.name@) is Some {
            let shorter = names.take(n - 1);
            let i = choose|i: int| 0 <= i < shorter.len() && shorter[i] == m.name@;
            assert(names[i] != names[n - 1]);
        }
        insert_new_key(before, m.name@, block);
        insert_keeps_order(before, m.name@, block);
        assert forall|i: int| #![trigger cfg.models@[i]] 0 <= i < n implies looked_up(
            models_section(cfg, rt, n),
            cfg.models@[i].name@,
        ) == Some(YamlView::Block(model_block(cfg, rt, cfg.models@[i]))) by {
            insert_then_look_up(before, m.name@, block, cfg.models@[i].name@);
            if i < n - 1 {
                assert(names[i] != names[n - 1]);
                assert(names[i] == cfg.models@[i].name@);
            }
        }
        assert forall|key: Seq<char>|
            #[trigger] looked_up(models_section(cfg, rt, n), key) is Some implies names.take(
            n,
        ).contains(key) by {
            insert_then_look_up(before, m.name@, block, key);
            if key == m.name@ {
                assert(names.take(n)[n - 1] == key);
            } else {
                let shorter = names.take(n - 1);
                let i = choose|i: int| 0 <= i < shorter.len() && shorter[i] == key;
                assert(names.take(n)[i] == key);
            }
        }
    }
}

proof fn lemma_document_sections(cfg: Config, rt: Runtime)
    ensures
        looked_up(swap_document(cfg, rt), "models"@) == Some(
            YamlView::Block(models_section(cfg, rt, cfg.models@.len() as int)),
        ),
        looked_up(swap_document(cfg, rt), "groups"@) == if cfg.groups@.len() > 0 {
            Some(YamlView::Block(groups_section(cfg, cfg.groups@.len() as int)))
        } else {
            None
        },
{
    lemma_document_keys();
    let d0 = swap_document(cfg, rt);
    let d1 = d0.drop_first();
    let d2 = d1.drop_first();
    let d3 = d2.drop_first();
    let d4 = d3.drop_first();
    let d5 = d4.drop_first();
    assert(d5 =~= if cfg.groups@.len() > 0 {
        seq![("groups"@, YamlView::Block(groups_section(cfg, cfg.groups@.len() as int)))]
    } else {
        Seq::empty()
    });
    reveal_with_fuel(looked_up, 7);
}

/// The generated document of a valid configuration lists each model once, in the
/// order of the names, each with its own entry.
pub proof fn every_model_is_listed(cfg: Config, rt: Runtime, listen_is_addr: bool)
    requires
        is_valid(cfg, listen_is_addr),
    ensures
        looked_up(swap_document(cfg, rt), "models"@) == Some(
            YamlView::Block(models_section(cfg, rt, cfg.models@.len() as int)),
        ),
        models_section(cfg, rt, cfg.models@.len() as int).len() == cfg.models@.len(),
        ordered(models_section(cfg, rt, cfg.models@.len() as int)),
        forall|i: int|
            #![trigger cfg.models@[i]]
            0 <= i < cfg.models@.len() ==> looked_up(
                models_section(cfg, rt, cfg.models@.len() as int),
                cfg.models@[i].name@,
            ) == Some(YamlView::Block(model_block(cfg, rt, cfg.models@[i]))),
{
    lemma_models_section(cfg, rt, cfg.models@.len() as int);
    lemma_document_sections(cfg, rt);
}

proof fn lemma_groups_section(cfg: Config, n: int)
    requires
        0 <= n <= cfg.groups@.len(),
        group_names(cfg.groups@).no_duplicates(),
    ensures
        groups_section(cfg, n).len() == n,
        ordered(groups_section(cfg, n)),
        forall|i: int|
            #![trigger cfg.groups@[i]]
            0 <= i < n ==> looked_up(groups_section(cfg, n), cfg.groups@[i].name@) == Some(
                YamlView::Block(group_block(cfg.groups@[i])),
            ),
        forall|key: Seq<char>|
            #[trigger] looked_up(groups_section(cfg, n), key) is Some ==> group_names(
                cfg.groups@,
            ).take(n).contains(key),
    decreases n,
{
    if n > 0 {
        lemma_groups_section(cfg, n - 1);
        let names = group_names(cfg.groups@);
        let before = groups_section(cfg, n - 1);
        let g = cfg.groups@[n - 1];
        let block = YamlView::Block(group_block(g));
        assert(names[n - 1] == g.name@);
        if looked_up(before, g.name@) is Some {
            let shorter = names.take(n - 1);
            let i = choose|i: int| 0 <= i < shorter.len() && shorter[i] == g.name@;
            assert(names[i] != names[n - 1]);
        }
        insert_new_key(before, g.name@, block);
        insert_keeps_order(before, g.name@, block);
        assert forall|i: int| #![trigger cfg.groups@[i]] 0 <= i < n implies looked_up(
            groups_section(cfg, n),
            cfg.groups@[i].name@,
        ) == Some(YamlView::Block(group_block(cfg.groups@[i]))) by {
            insert_then_look_up(before, g.name@, block, cfg.groups@[i].name@);
            if i < n - 1 {
                assert(names[i] != names[n - 1]);
                assert(names[i] == cfg.groups@[i].name@);
            }
        }
        assert forall|key: Seq<char>|
            #[trigger] looked_up(groups_section(cfg, n), key) is Some implies names.take(
            n,
        ).contains(key) by {
            insert_then_look_up(before, g.name@, block, key);
            if key == g.name@ {
                assert(names.take(n)[n - 1] == key);
            } else {
                let shorter = names.take(n - 1);
                let i = choose|i: int| 0 <= i < shorter.len() && shorter[i] == key;
                assert(names.take(n)[i] == key);
            }
        }
    }
}

/// The generated document of a valid configuration lists each group once, in the
/// order of the names, each with its own entry; where there are no groups it has no
/// such list.
pub proof fn every_group_is_listed(cfg: Config, rt: Runtime, listen_is_addr: bool)
    requires
        is_valid(cfg, listen_is_addr),
    ensures
        looked_up(swap_document(cfg, rt), "groups"@) == if cfg.groups@.len() > 0 {
            Some(YamlView::Block(groups_section(cfg, cfg.groups@.len() as int)))
        } else {
            None
        },
        groups_section(cfg, cfg.groups@.len() as int).len() == cfg.groups@.len(),
        ordered(groups_section(cfg, cfg.groups@.len() as int)),
        forall|i: int|
            #![trigger cfg.groups@[i]]
            0 <= i < cfg.groups@.len() ==> looked_up(
                groups_section(cfg, cfg.groups@.len() as int),
                cfg.groups@[i].name@,
            ) == Some(YamlView::Block(group_block(cfg.groups@[i]))),
{
    lemma_groups_section(cfg, cfg.groups@.len() as int);
    lemma_document_sections(cfg, rt);
}

proof fn lemma_models_reordered(a: Config, b: Config, rt: Runtime, key: Seq<char>)
    requires
        reordered(a, b),
        model_names(a.models@).no_duplicates(),
        model_names(b.models@).no_duplicates(),
        looked_up(models_section(a, rt, a.models@.len() as int), key) is Some,
    ensures
        looked_up(models_section(a, rt, a.models@.len() as int), key) == looked_up(
            models_section(b, rt, b.models@.len() as int),
            key,
        ),
{
    let n = a.models@.len() as int;
    lemma_models_section(a, rt, n);
    lemma_models_section(b, rt, b.models@.len() as int);
    let names = model_names(a.models@);
    assert(names.take(n) =~= names);
    let i = choose|i: int| 0 <= i < names.len() && names[i] == key;
    let m = a.models@[i];
    assert(names[i] == m.name@);
    a.models@.to_multiset_ensures();
    b.models@.to_multiset_ensures();
    assert(a.models@.contains(m));
    assert(b.models@.to_multiset().count(m) > 0);
    let j = choose|j: int| 0 <= j < b.models@.len() && b.models@[j] == m;
    assert(b.models@[j].name@ == key);
    assert(model_block(a, rt, m) == model_block(b, rt, m));
}

proof fn lemma_groups_reordered(a: Config, b: Config, key: Seq<char>)
    requires
        reordered(a, b),
        group_names(a.groups@).no_duplicates(),
        group_names(b.groups@).no_duplicates(),
        looked_up(groups_section(a, a.groups@.len() as int), key) is Some,
    ensures
        looked_up(groups_section(a, a.groups@.len() as int), key) == looked_up(
            groups_section(b, b.groups@.len() as int),
            key,
        ),
{
    let n = a.groups@.len() as int;
    lemma_groups_section(a, n);
    lemma_groups_section(b, b.groups@.len() as int);
    let names = group_names(a.groups@);
    assert(names.take(n) =~= names);
    let i = choose|i: int| 0 <= i < names.len() && names[i] == key;
    let g = a.groups@[i];
    assert(names[i] == g.name@);
    a.groups@.to_multiset_ensures();
    b.groups@.to_multiset_ensures();
    assert(a.groups@.contains(g));
    assert(b.groups@.to_multiset().count(g) > 0);
    let j = choose|j: int| 0 <= j < b.groups@.len() && b.groups@[j] == g;
    assert(b.groups@[j].name@ == key);
}

/// What is generated from a valid configuration does not depend on the order in
/// which it lists its models and its groups.
pub proof fn artifacts_ignore_order(a: Config, b: Config, rt: Runtime, listen_is_addr: bool)
    requires
        reordered(a, b),
        is_valid(a, listen_is_addr),
    ensures
        swap_document(a, rt) == swap_document(b, rt),
        swap_yaml(a, rt) == swap_yaml(b, rt),
        env_text(a) == env_text(b),
{
    verdict_ignores_order(a, b, listen_is_addr);
    let ma = models_section(a, rt, a.models@.len() as int);
    let mb = models_section(b, rt, b.models@.len() as int);
    let ga = groups_section(a, a.groups@.len() as int);
    let gb = groups_section(b, b.groups@.len() as int);
    lemma_models_section(a, rt, a.models@.len() as int);
    lemma_models_section(b, rt, b.models@.len() as int);
    lemma_groups_section(a, a.groups@.len() as int);
    lemma_groups_section(b, b.groups@.len() as int);
    assert forall|key: Seq<char>| #[trigger] looked_up(ma, key) == looked_up(mb, key) by {
        if looked_up(ma, key) is Some {
            lemma_models_reordered(a, b, rt, key);
        } else if looked_up(mb, key) is Some {
            lemma_models_reordered(b, a, rt, key);
        }
    }
    assert forall|key: Seq<char>| #[trigger] looked_up(ga, key) == looked_up(gb, key) by {
        if looked_up(ga, key) is Some {
            lemma_groups_reordered(a, b, key);
        } else if looked_up(gb, key) is Some {
            lemma_groups_reordered(b, a, key);
        }
    }
    ordered_rows_agree(ma, mb);
    ordered_rows_agree(ga, gb);
    a.groups@.to_multiset_ensures();
    b.groups@.to_multiset_ensures();
}

/// What a summary says of a model: its name, source, aliases and TTL.
pub open spec fn summarizes(
    summary: (String, String, Vec<String>, u32),
    cfg: Config,
    m: Model,
) -> bool {
    &&& summary.0@ == m.name@
    &&& summary.1@ == source_text(cfg, m)
    &&& texts(summary.2@) == texts(m.aliases@)
    &&& summary.3 == cfg.ttl_of(m)
}

/// Build a status summary of configured models (used by resourced).
pub fn model_summaries(cfg: &Config) -> (r: Vec<(String, String, Vec<String>, u32)>)
    ensures
        r@.len() == cfg.models@.len(),
        forall|i: int| 0 <= i < r@.len() ==> summarizes(#[trigger] r@[i], *cfg, cfg.models@[i]),
{
    let mut out: Vec<(String, String, Vec<String>, u32)> = Vec::new();
    let mut i: usize = 0;
    while i < cfg.models.len()
        invariant
            i <= cfg.models@.len(),
            out@.len() == i,
            forall|k: int|
                0 <= k < i ==> summarizes(#[trigger] out@[k], *cfg, cfg.models@[k]),
        decreases cfg.models@.len() - i,
    {
        let m = &cfg.models[i];
        out.push(
            (m.name.clone(), model_source(cfg, m), clone_texts(&m.aliases), cfg.model_ttl(m)),
        );
        i += 1;
    }
    out
}

} // verus!
