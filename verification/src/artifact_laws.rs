//! What the generated artifacts say of the configuration that they come from.

use crate::order::{insert_then_look_up, looked_up, text_less};
use crate::runtime::{path_in, Runtime};
use crate::schema::{accepted_iff_valid, opt_text, Config, Model};
use crate::shell::{all_plain, escaped, is_plain, quoted, shell_words};
use crate::swap::{
    command, command_args, command_is_read_back, command_words, env_lines, env_text,
    every_group_is_listed, every_model_is_listed, group_block, groups_section, lemma_document_keys,
    lemma_group_keys, lemma_model_keys, model_block, models_section, source_words, summarizes,
    swap_document, swap_yaml, YAML_HEADER,
};
use crate::text::{decimal, joined, split_at_char, texts};
use crate::text_laws::{joining_is_piecewise, split_undoes_join};
use crate::yaml::{yaml_text, YamlView};
use vstd::prelude::*;

verus! {

/// What stands under a key of a value that is a block.
pub open spec fn within(v: Option<YamlView>, key: Seq<char>) -> Option<YamlView> {
    match v {
        Some(YamlView::Block(entries)) => looked_up(entries, key),
        _ => None,
    }
}

/// How many entries a value that is a block has.
pub open spec fn breadth(v: Option<YamlView>) -> nat {
    match v {
        Some(YamlView::Block(entries)) => entries.len(),
        _ => 0,
    }
}

/// The document has the server's settings under llama-swap's keys, beside the models
/// and, where there are any, the groups.
pub proof fn server_settings_stand_in_the_document(cfg: Config, rt: Runtime)
    ensures
        ({
            let doc = Some(YamlView::Block(swap_document(cfg, rt)));
            &&& within(doc, "healthCheckTimeout"@) == Some(
                YamlView::Number(cfg.server.health_check_timeout as nat),
            )
            &&& within(doc, "logLevel"@) == Some(YamlView::Text(cfg.server.log_level@))
            &&& within(doc, "startPort"@) == Some(YamlView::Number(9800))
            &&& within(doc, "includeAliasesInList"@) == Some(
                YamlView::Bool(cfg.server.list_aliases),
            )
            &&& within(doc, "models"@) is Some
            &&& within(doc, "groups"@) is Some <==> cfg.groups@.len() > 0
            &&& breadth(doc) == 5 + (if cfg.groups@.len() > 0 {
                1nat
            } else {
                0
            })
        }),
{
    lemma_document_keys();
    let d0 = swap_document(cfg, rt);
    let d1 = d0.drop_first();
    let d2 = d1.drop_first();
    let d3 = d2.drop_first();
    let d4 = d3.drop_first();
    let d5 = d4.drop_first();
    assert(d5 =~= if cfg.groups@.len() > 0 {
        seq![("groups"@, YamlView::Block(groups_section(cfg, cfg.groups@.len() as int)))]
    } else {
        Seq::empty()
    });
    reveal_with_fuel(looked_up, 7);
}

proof fn lemma_model_looked_up(cfg: Config, rt: Runtime, n: int, i: int, key: Seq<char>)
    requires
        0 <= n <= cfg.models@.len(),
    ensures
        0 <= i < n && cfg.models@[i].name@ == key && (forall|k: int|
            i < k < n ==> (#[trigger] cfg.models@[k]).name@ != key) ==> looked_up(
            models_section(cfg, rt, n),
            key,
        ) == Some(YamlView::Block(model_block(cfg, rt, cfg.models@[i]))),
        (forall|k: int| 0 <= k < n ==> (#[trigger] cfg.models@[k]).name@ != key) ==> looked_up(
            models_section(cfg, rt, n),
            key,
        ) is None,
    decreases n,
{
    if n > 0 {
        lemma_model_looked_up(cfg, rt, n - 1, i, key);
        let m = cfg.models@[n - 1];
        insert_then_look_up(
            models_section(cfg, rt, n - 1),
            m.name@,
            YamlView::Block(model_block(cfg, rt, m)),
            key,
        );
    }
}

proof fn lemma_group_looked_up(cfg: Config, n: int, i: int, key: Seq<char>)
    requires
        0 <= n <= cfg.groups@.len(),
    ensures
        0 <= i < n && cfg.groups@[i].name@ == key && (forall|k: int|
            i < k < n ==> (#[trigger] cfg.groups@[k]).name@ != key) ==> looked_up(
            groups_section(cfg, n),
            key,
        ) == Some(YamlView::Block(group_block(cfg.groups@[i]))),
        (forall|k: int| 0 <= k < n ==> (#[trigger] cfg.groups@[k]).name@ != key) ==> looked_up(
            groups_section(cfg, n),
            key,
        ) is None,
    decreases n,
{
    if n > 0 {
        lemma_group_looked_up(cfg, n - 1, i, key);
        let g = cfg.groups@[n - 1];
        insert_then_look_up(
            groups_section(cfg, n - 1),
            g.name@,
            YamlView::Block(group_block(g)),
            key,
        );
    }
}

proof fn lemma_sections(cfg: Config, rt: Runtime)
    ensures
        ({
            let doc = Some(YamlView::Block(swap_document(cfg, rt)));
            &&& within(doc, "models"@) == Some(
                YamlView::Block(models_section(cfg, rt, cfg.models@.len() as int)),
            )
            &&& cfg.groups@.len() > 0 ==> within(doc, "groups"@) == Some(
                YamlView::Block(groups_section(cfg, cfg.groups@.len() as int)),
            )
        }),
{
    lemma_document_keys();
    let d0 = swap_document(cfg, rt);
    let d1 = d0.drop_first();
    let d2 = d1.drop_first();
    let d3 = d2.drop_first();
    let d4 = d3.drop_first();
    let d5 = d4.drop_first();
    assert(d5 =~= if cfg.groups@.len() > 0 {
        seq![("groups"@, YamlView::Block(groups_section(cfg, cfg.groups@.len() as int)))]
    } else {
        Seq::empty()
    });
    reveal_with_fuel(looked_up, 7);
}

/// Every group stands in the document under its name, unless a later one has the same
/// name: with its own members, and its own flags for swapping and exclusiveness.
pub proof fn group_is_described_by_its_fields(cfg: Config, rt: Runtime, i: int)
    requires
        0 <= i < cfg.groups@.len(),
        forall|k: int|
            i < k < cfg.groups@.len() ==> (#[trigger] cfg.groups@[k]).name@ != cfg.groups@[i].name@,
    ensures
        ({
            let g = cfg.groups@[i];
            let groups = within(Some(YamlView::Block(swap_document(cfg, rt))), "groups"@);
            let entry = within(groups, g.name@);
            &&& within(entry, "swap"@) == Some(YamlView::Bool(g.swap))
            &&& within(entry, "exclusive"@) == Some(YamlView::Bool(g.exclusive))
            &&& within(entry, "members"@) == Some(YamlView::List(texts(g.members@)))
            &&& breadth(entry) == 3
        }),
{
    let g = cfg.groups@[i];
    lemma_sections(cfg, rt);
    lemma_group_looked_up(cfg, cfg.groups@.len() as int, i, g.name@);
    lemma_group_keys();
    let b0 = group_block(g);
    let b1 = b0.drop_first();
    let b2 = b1.drop_first();
    reveal_with_fuel(looked_up, 4);
}

/// Every model stands in the document under its name, unless a later one has the same
/// name: with its command line, its name, its time to live (its own or the default),
/// and with a description, aliases and a concurrency limit exactly where it has them.
pub proof fn model_is_described_by_its_fields(cfg: Config, rt: Runtime, i: int)
    requires
        0 <= i < cfg.models@.len(),
        forall|k: int|
            i < k < cfg.models@.len() ==> (#[trigger] cfg.models@[k]).name@ != cfg.models@[i].name@,
    ensures
        ({
            let m = cfg.models@[i];
            let models = within(Some(YamlView::Block(swap_document(cfg, rt))), "models"@);
            let entry = within(models, m.name@);
            &&& within(entry, "cmd"@) == Some(YamlView::Text(command(cfg, rt, m)))
            &&& within(entry, "name"@) == Some(YamlView::Text(m.name@))
            &&& within(entry, "description"@) == match m.description {
                Some(d) => Some(YamlView::Text(d@)),
                None => None,
            }
            &&& within(entry, "aliases"@) == if m.aliases@.len() > 0 {
                Some(YamlView::List(texts(m.aliases@)))
            } else {
                None
            }
            &&& within(entry, "ttl"@) == match m.ttl {
                Some(ttl) => Some(YamlView::Number(ttl as nat)),
                None => Some(YamlView::Number(cfg.defaults.ttl as nat)),
            }
            &&& within(entry, "concurrencyLimit"@) == if m.concurrency_limit > 0 {
                Some(YamlView::Number(m.concurrency_limit as nat))
            } else {
                None
            }
            &&& breadth(entry) == 3 + (if m.description is Some {
                1nat
            } else {
                0
            }) + (if m.aliases@.len() > 0 {
                1nat
            } else {
                0
            }) + (if m.concurrency_limit > 0 {
                1nat
            } else {
                0
            })
        }),
{
    let m = cfg.models@[i];
    lemma_sections(cfg, rt);
    lemma_model_looked_up(cfg, rt, cfg.models@.len() as int, i, m.name@);
    lemma_model_entry(cfg, rt, m);
}

/// The document lists no other models and groups than those of the configuration; of
/// a configuration that passes it lists each once.
pub proof fn document_lists_nothing_else(
    cfg: Config,
    rt: Runtime,
    key: Seq<char>,
    listen_is_addr: bool,
)
    ensures
        ({
            let doc = Some(YamlView::Block(swap_document(cfg, rt)));
            let models = within(doc, "models"@);
            let groups = within(doc, "groups"@);
            &&& (forall|k: int|
                0 <= k < cfg.models@.len() ==> (#[trigger] cfg.models@[k]).name@ != key) ==> within(
                models,
                key,
            ) is None
            &&& (forall|k: int|
                0 <= k < cfg.groups@.len() ==> (#[trigger] cfg.groups@[k]).name@ != key) ==> within(
                groups,
                key,
            ) is None
            &&& cfg.fault(listen_is_addr) is None ==> breadth(models) == cfg.models@.len()
                && breadth(groups) == cfg.groups@.len()
        }),
{
    lemma_sections(cfg, rt);
    server_settings_stand_in_the_document(cfg, rt);
    lemma_model_looked_up(cfg, rt, cfg.models@.len() as int, 0, key);
    lemma_group_looked_up(cfg, cfg.groups@.len() as int, 0, key);
    if cfg.fault(listen_is_addr) is None {
        accepted_iff_valid(cfg, listen_is_addr);
        every_model_is_listed(cfg, rt, listen_is_addr);
        every_group_is_listed(cfg, rt, listen_is_addr);
    }
}

proof fn lemma_looked_up_concat(
    a: Seq<(Seq<char>, YamlView)>,
    b: Seq<(Seq<char>, YamlView)>,
    key: Seq<char>,
)
    ensures
        looked_up(a + b, key) == match looked_up(a, key) {
            Some(v) => Some(v),
            None => looked_up(b, key),
        },
    decreases a.len(),
{
    if a.len() == 0 {
        assert(a + b =~= b);
    } else {
        lemma_looked_up_concat(a.drop_first(), b, key);
        assert((a + b).drop_first() =~= a.drop_first() + b);
    }
}

proof fn lemma_looked_up_one(k: Seq<char>, v: YamlView, key: Seq<char>)
    ensures
        looked_up(seq![(k, v)], key) == if k == key {
            Some(v)
        } else {
            None
        },
{
    assert(seq![(k, v)].drop_first() =~= Seq::<(Seq<char>, YamlView)>::empty());
    reveal_with_fuel(looked_up, 2);
}

proof fn lemma_entry_at(cfg: Config, rt: Runtime, m: Model, key: Seq<char>)
    ensures
        looked_up(model_block(cfg, rt, m), key) == if key == "cmd"@ {
            Some(YamlView::Text(command(cfg, rt, m)))
        } else if key == "name"@ {
            Some(YamlView::Text(m.name@))
        } else if key == "description"@ && m.description is Some {
            Some(YamlView::Text(m.description->0@))
        } else if key == "aliases"@ && m.aliases@.len() > 0 {
            Some(YamlView::List(texts(m.aliases@)))
        } else if key == "ttl"@ {
            Some(YamlView::Number(cfg.ttl_of(m) as nat))
        } else if key == "concurrencyLimit"@ && m.concurrency_limit > 0 {
            Some(YamlView::Number(m.concurrency_limit as nat))
        } else {
            None
        },
{
    lemma_model_keys();
    let none = Seq::<(Seq<char>, YamlView)>::empty();
    let cmd = seq![("cmd"@, YamlView::Text(command(cfg, rt, m)))];
    let name = seq![("name"@, YamlView::Text(m.name@))];
    let two = seq![("cmd"@, YamlView::Text(command(cfg, rt, m))), ("name"@, YamlView::Text(m.name@))];
    assert(two =~= cmd + name);
    lemma_looked_up_one("cmd"@, YamlView::Text(command(cfg, rt, m)), key);
    lemma_looked_up_one("name"@, YamlView::Text(m.name@), key);
    lemma_looked_up_concat(cmd, name, key);
    let description = match m.description {
        Some(d) => seq![("description"@, YamlView::Text(d@))],
        None => none,
    };
    if let Some(d) = m.description {
        lemma_looked_up_one("description"@, YamlView::Text(d@), key);
    }
    lemma_looked_up_concat(two, description, key);
    let aliases = if m.aliases@.len() > 0 {
        seq![("aliases"@, YamlView::List(texts(m.aliases@)))]
    } else {
        none
    };
    lemma_looked_up_one("aliases"@, YamlView::List(texts(m.aliases@)), key);
    lemma_looked_up_concat(two + description, aliases, key);
    let ttl = seq![("ttl"@, YamlView::Number(cfg.ttl_of(m) as nat))];
    lemma_looked_up_one("ttl"@, YamlView::Number(cfg.ttl_of(m) as nat), key);
    lemma_looked_up_concat(two + description + aliases, ttl, key);
    let limit = if m.concurrency_limit > 0 {
        seq![("concurrencyLimit"@, YamlView::Number(m.concurrency_limit as nat))]
    } else {
        none
    };
    lemma_looked_up_one("concurrencyLimit"@, YamlView::Number(m.concurrency_limit as nat), key);
    lemma_looked_up_concat(two + description + aliases + ttl, limit, key);
}

proof fn lemma_model_entry(cfg: Config, rt: Runtime, m: Model)
    ensures
        ({
            let b = model_block(cfg, rt, m);
            &&& looked_up(b, "cmd"@) == Some(YamlView::Text(command(cfg, rt, m)))
            &&& looked_up(b, "name"@) == Some(YamlView::Text(m.name@))
            &&& looked_up(b, "description"@) == match m.description {
                Some(d) => Some(YamlView::Text(d@)),
                None => None,
            }
            &&& looked_up(b, "aliases"@) == if m.aliases@.len() > 0 {
                Some(YamlView::List(texts(m.aliases@)))
            } else {
                None
            }
            &&& looked_up(b, "ttl"@) == Some(YamlView::Number(cfg.ttl_of(m) as nat))
            &&& looked_up(b, "concurrencyLimit"@) == if m.concurrency_limit > 0 {
                Some(YamlView::Number(m.concurrency_limit as nat))
            } else {
                None
            }
        }),
{
    lemma_model_keys();
    lemma_entry_at(cfg, rt, m, "cmd"@);
    lemma_entry_at(cfg, rt, m, "name"@);
    lemma_entry_at(cfg, rt, m, "description"@);
    lemma_entry_at(cfg, rt, m, "aliases"@);
    lemma_entry_at(cfg, rt, m, "ttl"@);
    lemma_entry_at(cfg, rt, m, "concurrencyLimit"@);
}

/// The YAML is the document's, behind a fixed comment.
pub proof fn yaml_is_the_document_behind_a_comment(cfg: Config, rt: Runtime)
    ensures
        swap_yaml(cfg, rt).take(YAML_HEADER@.len() as int) == YAML_HEADER@,
        swap_yaml(cfg, rt).skip(YAML_HEADER@.len() as int) == yaml_text(swap_document(cfg, rt)),
{
    assert(swap_yaml(cfg, rt).take(YAML_HEADER@.len() as int) =~= YAML_HEADER@);
    assert(swap_yaml(cfg, rt).skip(YAML_HEADER@.len() as int) =~= yaml_text(
        swap_document(cfg, rt),
    ));
}

/// The value of an option among words that are options, each with its value behind
/// it.
pub open spec fn option(words: Seq<Seq<char>>, flag: Seq<char>) -> Option<Seq<char>>
    decreases words.len(),
{
    if words.len() < 2 {
        None
    } else if words[0] == flag {
        Some(words[1])
    } else {
        option(words.skip(2), flag)
    }
}

proof fn lemma_option_concat(a: Seq<Seq<char>>, b: Seq<Seq<char>>, flag: Seq<char>)
    requires
        a.len() % 2 == 0,
    ensures
        option(a + b, flag) == match option(a, flag) {
            Some(v) => Some(v),
            None => option(b, flag),
        },
    decreases a.len(),
{
    if a.len() == 0 {
        assert(a + b =~= b);
    } else {
        lemma_option_concat(a.skip(2), b, flag);
        assert((a + b).skip(2) =~= a.skip(2) + b);
    }
}

proof fn lemma_option_pair(k: Seq<char>, v: Seq<char>, flag: Seq<char>)
    ensures
        option(seq![k, v], flag) == if k == flag {
            Some(v)
        } else {
            None
        },
{
    assert(seq![k, v].skip(2) =~= Seq::<Seq<char>>::empty());
    reveal_with_fuel(option, 2);
}

proof fn lemma_options_differ()
    ensures
        "--port"@ != "--host"@,
        "--port"@ != "--hf-repo"@,
        "--port"@ != "--hf-file"@,
        "--port"@ != "--model"@,
        "--port"@ != "--ctx-size"@,
        "--port"@ != "--n-gpu-layers"@,
        "--port"@ != "--flash-attn"@,
        "--host"@ != "--hf-repo"@,
        "--host"@ != "--hf-file"@,
        "--host"@ != "--model"@,
        "--host"@ != "--ctx-size"@,
        "--host"@ != "--n-gpu-layers"@,
        "--host"@ != "--flash-attn"@,
        "--hf-repo"@ != "--hf-file"@,
        "--hf-repo"@ != "--model"@,
        "--hf-repo"@ != "--ctx-size"@,
        "--hf-repo"@ != "--n-gpu-layers"@,
        "--hf-repo"@ != "--flash-attn"@,
        "--hf-file"@ != "--model"@,
        "--hf-file"@ != "--ctx-size"@,
        "--hf-file"@ != "--n-gpu-layers"@,
        "--hf-file"@ != "--flash-attn"@,
        "--model"@ != "--ctx-size"@,
        "--model"@ != "--n-gpu-layers"@,
        "--model"@ != "--flash-attn"@,
        "--ctx-size"@ != "--n-gpu-layers"@,
        "--ctx-size"@ != "--flash-attn"@,
        "--n-gpu-layers"@ != "--flash-attn"@,
{
    reveal_strlit("--port");
    reveal_strlit("--host");
    reveal_strlit("--hf-repo");
    reveal_strlit("--hf-file");
    reveal_strlit("--model");
    reveal_strlit("--ctx-size");
    reveal_strlit("--n-gpu-layers");
    reveal_strlit("--flash-attn");
    assert("--port"@.len() == 6 && "--host"@.len() == 6);
    assert("--port"@[2] == 'p' && "--host"@[2] == 'h');
    assert("--hf-repo"@.len() == 9 && "--hf-file"@.len() == 9);
    assert("--hf-repo"@[5] == 'r' && "--hf-file"@[5] == 'f');
    assert("--model"@.len() == 7);
    assert("--ctx-size"@.len() == 10);
    assert("--n-gpu-layers"@.len() == 14);
    assert("--flash-attn"@.len() == 12);
}

/// A command line with a port in the place of its placeholder, which stands at
/// `place`.
pub open spec fn port_filled_in(line: Seq<char>, place: int, port: nat) -> Seq<char> {
    line.take(place) + decimal(port) + line.skip(place + "${PORT}"@.len())
}

/// Where the placeholder for the port stands in a command line: behind the server
/// and the option for the port.
pub open spec fn port_place(rt: Runtime) -> int {
    (quoted(rt.llama_server@) + " --port "@).len() as int
}

proof fn lemma_command_with(cfg: Config, rt: Runtime, m: Model, port: Seq<char>) -> (rest: Seq<char>)
    ensures
        joined(command_words(cfg, rt, m, port), " "@) == quoted(rt.llama_server@) + " --port "@
            + port + rest,
        rest == " "@ + joined(
            seq!["--host"@, "127.0.0.1"@] + command_words(cfg, rt, m, port).skip(5),
            " "@,
        ),
{
    let words = command_words(cfg, rt, m, port);
    let q = quoted(rt.llama_server@);
    let a = seq![q, "--port"@, port];
    let b = seq!["--host"@, "127.0.0.1"@] + words.skip(5);
    assert(words =~= a + b);
    joining_is_piecewise(a, b, " "@);
    let a1 = seq![q];
    let a2 = seq!["--port"@, port];
    assert(a =~= a1 + a2);
    joining_is_piecewise(a1, a2, " "@);
    let p1 = seq!["--port"@];
    let p2 = seq![port];
    assert(a2 =~= p1 + p2);
    joining_is_piecewise(p1, p2, " "@);
    joining_is_piecewise(p2, p1, " "@);
    reveal_strlit(" ");
    reveal_strlit(" --port ");
    reveal_strlit("--port");
    assert(" --port "@ =~= " "@ + "--port"@ + " "@);
    let rest = " "@ + joined(b, " "@);
    assert(joined(words, " "@) =~= q + " --port "@ + port + rest);
    rest
}

proof fn lemma_own_options(cfg: Config, m: Model, port: Seq<char>, flag: Seq<char>)
    ensures
        ({
            let own = seq!["--port"@, port, "--host"@, "127.0.0.1"@] + source_words(cfg, m) + seq![
                "--ctx-size"@,
                decimal(cfg.context_of(m) as nat),
                "--n-gpu-layers"@,
                decimal(cfg.gpu_layers_of(m) as nat),
            ] + (if cfg.flash_attention_of(m) {
                seq!["--flash-attn"@, "on"@]
            } else {
                Seq::empty()
            });
            &&& flag == "--port"@ ==> option(own, flag) == Some(port)
            &&& flag == "--host"@ ==> option(own, flag) == Some("127.0.0.1"@)
            &&& flag == "--hf-repo"@ || flag == "--hf-file"@ || flag == "--model"@ ==> option(
                own,
                flag,
            ) == option(source_words(cfg, m), flag)
            &&& flag == "--ctx-size"@ ==> option(own, flag) == Some(
                decimal(cfg.context_of(m) as nat),
            )
            &&& flag == "--n-gpu-layers"@ ==> option(own, flag) == Some(
                decimal(cfg.gpu_layers_of(m) as nat),
            )
            &&& flag == "--flash-attn"@ ==> option(own, flag) == if cfg.flash_attention_of(m) {
                Some("on"@)
            } else {
                None
            }
        }),
{
    lemma_options_differ();
    let none = Seq::<Seq<char>>::empty();
    let head = seq!["--port"@, port, "--host"@, "127.0.0.1"@];
    assert(head =~= seq!["--port"@, port] + seq!["--host"@, "127.0.0.1"@]);
    lemma_option_pair("--port"@, port, flag);
    lemma_option_pair("--host"@, "127.0.0.1"@, flag);
    lemma_option_concat(seq!["--port"@, port], seq!["--host"@, "127.0.0.1"@], flag);
    let source = source_words(cfg, m);
    lemma_source_options(cfg, m, flag);
    lemma_option_concat(head, source, flag);
    let context = decimal(cfg.context_of(m) as nat);
    let layers = decimal(cfg.gpu_layers_of(m) as nat);
    let sizes = seq!["--ctx-size"@, context, "--n-gpu-layers"@, layers];
    assert(sizes =~= seq!["--ctx-size"@, context] + seq!["--n-gpu-layers"@, layers]);
    lemma_option_pair("--ctx-size"@, context, flag);
    lemma_option_pair("--n-gpu-layers"@, layers, flag);
    lemma_option_concat(seq!["--ctx-size"@, context], seq!["--n-gpu-layers"@, layers], flag);
    lemma_option_concat(head + source, sizes, flag);
    let flags = if cfg.flash_attention_of(m) {
        seq!["--flash-attn"@, "on"@]
    } else {
        none
    };
    lemma_option_pair("--flash-attn"@, "on"@, flag);
    lemma_option_concat(head + source + sizes, flags, flag);
    assert(option(none, flag) is None);
}

proof fn lemma_source_options(cfg: Config, m: Model, flag: Seq<char>)
    ensures
        source_words(cfg, m).len() == 2 * ((if m.hf_repo is Some {
            1nat
        } else {
            0
        }) + (if m.hf_repo is Some && m.hf_file is Some {
            1nat
        } else {
            0
        }) + (if m.hf_repo is None && m.path is Some {
            1nat
        } else {
            0
        })),
        flag == "--hf-repo"@ ==> option(source_words(cfg, m), flag) == opt_text(m.hf_repo),
        flag == "--hf-file"@ ==> option(source_words(cfg, m), flag) == if m.hf_repo is Some {
            opt_text(m.hf_file)
        } else {
            None
        },
        flag == "--model"@ ==> option(source_words(cfg, m), flag) == if m.hf_repo is None
            && m.path is Some {
            Some(path_in(cfg.storage.models_dir@, m.path->0@))
        } else {
            None
        },
        flag != "--hf-repo"@ && flag != "--hf-file"@ && flag != "--model"@ ==> option(
            source_words(cfg, m),
            flag,
        ) is None,
{
    lemma_options_differ();
    let none = Seq::<Seq<char>>::empty();
    assert(option(none, flag) is None);
    match (m.hf_repo, m.path) {
        (Some(repo), _) => {
            let a = seq!["--hf-repo"@, repo@];
            lemma_option_pair("--hf-repo"@, repo@, flag);
            match m.hf_file {
                Some(file) => {
                    lemma_option_pair("--hf-file"@, file@, flag);
                    lemma_option_concat(a, seq!["--hf-file"@, file@], flag);
                },
                None => {
                    lemma_option_concat(a, none, flag);
                },
            }
        },
        (None, Some(path)) => {
            lemma_option_pair("--model"@, path_in(cfg.storage.models_dir@, path@), flag);
        },
        (None, None) => {},
    }
}

/// What a model's command line says, once a port stands in the place of the
/// placeholder: a shell reads in it the server, then options with a value each, then
/// the extra arguments of the defaults and those of the model. The options are the
/// port, the host, the model's own source, the context size and the GPU layers (the
/// model's own, or the default where it sets none) and, where it is on for the
/// model, flash attention; there are no others.
pub proof fn command_says_what_the_model_sets(cfg: Config, rt: Runtime, m: Model, port: nat)
    ensures
        command(cfg, rt, m).subrange(port_place(rt), port_place(rt) + "${PORT}"@.len())
            == "${PORT}"@,
        ({
            let line = port_filled_in(command(cfg, rt, m), port_place(rt), port);
            let words = shell_words(line)->0;
            let extra = texts(cfg.defaults.extra_args@) + texts(m.extra_args@);
            let own = words.subrange(1, words.len() - extra.len());
            let layers = match m.gpu_layers {
                Some(n) => n,
                None => cfg.defaults.gpu_layers,
            };
            let context = match m.context_size {
                Some(n) => n,
                None => cfg.defaults.context_size,
            };
            let flash = match m.flash_attention {
                Some(on) => on,
                None => cfg.defaults.flash_attention,
            };
            &&& shell_words(line) is Some
            &&& words.len() > extra.len()
            &&& words[0] == rt.llama_server@
            &&& words.skip(words.len() - extra.len()) == extra
            &&& option(own, "--port"@) == Some(decimal(port))
            &&& option(own, "--host"@) == Some("127.0.0.1"@)
            &&& option(own, "--hf-repo"@) == opt_text(m.hf_repo)
            &&& option(own, "--hf-file"@) == if m.hf_repo is Some {
                opt_text(m.hf_file)
            } else {
                None
            }
            &&& option(own, "--model"@) == if m.hf_repo is None && m.path is Some {
                Some(path_in(cfg.storage.models_dir@, m.path->0@))
            } else {
                None
            }
            &&& option(own, "--ctx-size"@) == Some(decimal(context as nat))
            &&& option(own, "--n-gpu-layers"@) == Some(decimal(layers as nat))
            &&& option(own, "--flash-attn"@) == if flash {
                Some("on"@)
            } else {
                None
            }
            &&& own.len() == 2 * (4 + (if m.hf_repo is Some {
                1nat
            } else {
                0
            }) + (if m.hf_repo is Some && m.hf_file is Some {
                1nat
            } else {
                0
            }) + (if m.hf_repo is None && m.path is Some {
                1nat
            } else {
                0
            }) + (if flash {
                1nat
            } else {
                0
            }))
        }),
{
    let template = command(cfg, rt, m);
    let p = decimal(port);
    let rest = lemma_command_with(cfg, rt, m, "${PORT}"@);
    let same = lemma_command_with(cfg, rt, m, p);
    assert(command_words(cfg, rt, m, "${PORT}"@).skip(5) =~= command_words(cfg, rt, m, p).skip(5));
    let pre = quoted(rt.llama_server@) + " --port "@;
    let place = port_place(rt);
    assert(template.subrange(place, place + "${PORT}"@.len()) =~= "${PORT}"@);
    assert(template.take(place) =~= pre);
    assert(template.skip(place + "${PORT}"@.len()) =~= rest);
    let line = port_filled_in(template, place, port);
    assert(line =~= pre + p + rest);
    command_is_read_back(cfg, rt, m, port);
    let words = command_args(cfg, rt, m, p);
    assert(shell_words(line) == Some(words));
    let extra = texts(cfg.defaults.extra_args@) + texts(m.extra_args@);
    let own = words.subrange(1, words.len() - extra.len());
    assert(words.skip(words.len() - extra.len()) =~= extra);
    let listed = seq!["--port"@, p, "--host"@, "127.0.0.1"@] + source_words(cfg, m) + seq![
        "--ctx-size"@,
        decimal(cfg.context_of(m) as nat),
        "--n-gpu-layers"@,
        decimal(cfg.gpu_layers_of(m) as nat),
    ] + (if cfg.flash_attention_of(m) {
        seq!["--flash-attn"@, "on"@]
    } else {
        Seq::empty()
    });
    assert(own =~= listed);
    lemma_own_options(cfg, m, p, "--port"@);
    lemma_own_options(cfg, m, p, "--host"@);
    lemma_own_options(cfg, m, p, "--hf-repo"@);
    lemma_own_options(cfg, m, p, "--hf-file"@);
    lemma_own_options(cfg, m, p, "--model"@);
    lemma_own_options(cfg, m, p, "--ctx-size"@);
    lemma_own_options(cfg, m, p, "--n-gpu-layers"@);
    lemma_own_options(cfg, m, p, "--flash-attn"@);
    lemma_source_options(cfg, m, "--hf-repo"@);
    lemma_source_options(cfg, m, "--hf-file"@);
    lemma_source_options(cfg, m, "--model"@);
}

/// A path that starts at the root names itself in every directory; another one is
/// the directory and the path, with one slash between them where the directory has
/// none at its end.
pub proof fn path_is_read_in_its_directory(dir: Seq<char>, path: Seq<char>)
    ensures
        path.len() > 0 && path[0] == '/' ==> path_in(dir, path) == path,
        path.len() == 0 || path[0] != '/' ==> {
            let r = path_in(dir, path);
            &&& r.take(dir.len() as int) == dir
            &&& r.skip(r.len() - path.len()) == path
            &&& dir.len() == 0 ==> r == path
            &&& dir.len() > 0 && dir[dir.len() - 1] == '/' ==> r.len() == dir.len() + path.len()
            &&& dir.len() > 0 && dir[dir.len() - 1] != '/' ==> r.len() == dir.len() + 1 + path.len()
                && r[dir.len() as int] == '/'
        },
{
    let r = path_in(dir, path);
    if path.len() == 0 || path[0] != '/' {
        assert(r.take(dir.len() as int) =~= dir);
        assert(r.skip(r.len() - path.len()) =~= path);
        if dir.len() == 0 {
            assert(r =~= path);
        }
    }
}

/// A model's summary is its name, its aliases, its time to live (its own or the
/// default) and where it comes from: its repository with its file, or its path in
/// the models directory.
pub proof fn summary_shows_the_model(
    summary: (String, String, Vec<String>, u32),
    cfg: Config,
    m: Model,
)
    requires
        summarizes(summary, cfg, m),
    ensures
        summary.0@ == m.name@,
        texts(summary.2@) == texts(m.aliases@),
        m.ttl matches Some(ttl) ==> summary.3 == ttl,
        m.ttl is None ==> summary.3 == cfg.defaults.ttl,
        m.hf_repo matches Some(repo) ==> (match m.hf_file {
            Some(file) => summary.1@ == "hf:"@ + repo@ + "/"@ + file@,
            None => summary.1@ == "hf:"@ + repo@,
        }),
        m.hf_repo is None ==> (match m.path {
            Some(path) => summary.1@ == path_in(cfg.storage.models_dir@, path@),
            None => summary.1@ == "<none>"@,
        }),
{
}

/// Whether a line assigns a value to a key: the key, an equals sign, the value. A key
/// has no equals sign in it.
pub open spec fn assigns(line: Seq<char>, key: Seq<char>, value: Seq<char>) -> bool {
    !key.contains('=') && line == key.push('=') + value
}

/// Whether a line of a text assigns the value to the key.
pub open spec fn holds_assignment(text: Seq<char>, key: Seq<char>, value: Seq<char>) -> bool {
    exists|i: int|
        0 <= i < split_at_char(text, '\n').len() && assigns(
            #[trigger] split_at_char(text, '\n')[i],
            key,
            value,
        )
}

proof fn lemma_one_assignment(k: Seq<char>, v: Seq<char>, key: Seq<char>, value: Seq<char>)
    requires
        !k.contains('='),
    ensures
        assigns(k.push('=') + v, key, value) <==> key == k && value == v,
{
    let line = k.push('=') + v;
    if assigns(line, key, value) {
        assert(line == key.push('=') + value);
        if k.len() < key.len() {
            assert(line[k.len() as int] == '=');
            assert(key[k.len() as int] == '=');
            assert(key.contains('='));
        }
        if key.len() < k.len() {
            assert(line[key.len() as int] == '=');
            assert(k[key.len() as int] == '=');
            assert(k.contains('='));
        }
        assert(key =~= line.take(k.len() as int));
        assert(k =~= line.take(k.len() as int));
        assert(value =~= line.skip(k.len() as int + 1));
        assert(v =~= line.skip(k.len() as int + 1));
    }
}

proof fn lemma_env_literals()
    ensures
        "LOCAL_LLM_LISTEN="@ == "LOCAL_LLM_LISTEN"@.push('='),
        "LLAMA_CACHE="@ == "LLAMA_CACHE"@.push('='),
        "HF_HOME="@ == "HF_HOME"@.push('='),
        "HF_HUB_CACHE="@ == "HF_HUB_CACHE"@.push('='),
        "HF_HUB_OFFLINE=1"@ == "HF_HUB_OFFLINE"@.push('=') + "1"@,
        !"LOCAL_LLM_LISTEN"@.contains('='),
        !"LLAMA_CACHE"@.contains('='),
        !"HF_HOME"@.contains('='),
        !"HF_HUB_CACHE"@.contains('='),
        !"HF_HUB_OFFLINE"@.contains('='),
        !"# Generated by local-llm-resourced. Do not edit by hand."@.contains('='),
        !"# Generated by local-llm-resourced. Do not edit by hand."@.contains('\n'),
        !"LOCAL_LLM_LISTEN="@.contains('\n'),
        !"LLAMA_CACHE="@.contains('\n'),
        !"HF_HOME="@.contains('\n'),
        !"HF_HUB_CACHE="@.contains('\n'),
        !"HF_HUB_OFFLINE=1"@.contains('\n'),
        "LOCAL_LLM_LISTEN"@.len() == 16,
        "LLAMA_CACHE"@.len() == 11,
        "HF_HOME"@.len() == 7,
        "HF_HUB_CACHE"@.len() == 12,
        "HF_HUB_OFFLINE"@.len() == 14,
{
    reveal_strlit("LOCAL_LLM_LISTEN=");
    reveal_strlit("LLAMA_CACHE=");
    reveal_strlit("HF_HOME=");
    reveal_strlit("HF_HUB_CACHE=");
    reveal_strlit("HF_HUB_OFFLINE=1");
    reveal_strlit("LOCAL_LLM_LISTEN");
    reveal_strlit("LLAMA_CACHE");
    reveal_strlit("HF_HOME");
    reveal_strlit("HF_HUB_CACHE");
    reveal_strlit("HF_HUB_OFFLINE");
    reveal_strlit("1");
    reveal_strlit("# Generated by local-llm-resourced. Do not edit by hand.");
    assert("LOCAL_LLM_LISTEN="@ =~= "LOCAL_LLM_LISTEN"@.push('='));
    assert("LLAMA_CACHE="@ =~= "LLAMA_CACHE"@.push('='));
    assert("HF_HOME="@ =~= "HF_HOME"@.push('='));
    assert("HF_HUB_CACHE="@ =~= "HF_HUB_CACHE"@.push('='));
    assert("HF_HUB_OFFLINE=1"@ =~= "HF_HUB_OFFLINE"@.push('=') + "1"@);
}

proof fn lemma_no_feed(a: Seq<char>, b: Seq<char>)
    requires
        !a.contains('\n'),
        !b.contains('\n'),
    ensures
        !(a + b).contains('\n'),
{
    assert forall|i: int| 0 <= i < (a + b).len() implies (a + b)[i] != '\n' by {
        if i < a.len() {
            assert(a.contains(a[i]));
        } else {
            assert(b.contains(b[i - a.len()]));
        }
    }
}

/// Read back line by line, the environment file assigns the configured listen address
/// to LOCAL_LLM_LISTEN, the models directory to LLAMA_CACHE, the cache directory to
/// HF_HOME and HF_HUB_CACHE, and 1 to HF_HUB_OFFLINE exactly where downloads are off.
/// It assigns nothing else to them, and nothing to any other key.
pub proof fn environment_is_read_back(cfg: Config, key: Seq<char>, value: Seq<char>)
    requires
        !cfg.server.listen@.contains('\n'),
        !cfg.storage.models_dir@.contains('\n'),
        !cfg.storage.hf_cache_dir@.contains('\n'),
    ensures
        holds_assignment(env_text(cfg), key, value) <==> {
            ||| key == "LOCAL_LLM_LISTEN"@ && value == cfg.server.listen@
            ||| key == "LLAMA_CACHE"@ && value == cfg.storage.models_dir@
            ||| key == "HF_HOME"@ && value == cfg.storage.hf_cache_dir@
            ||| key == "HF_HUB_CACHE"@ && value == cfg.storage.hf_cache_dir@
            ||| key == "HF_HUB_OFFLINE"@ && value == "1"@ && !cfg.storage.auto_download
        },
{
    lemma_env_literals();
    let listen = cfg.server.listen@;
    let dir = cfg.storage.models_dir@;
    let cache = cfg.storage.hf_cache_dir@;
    lemma_no_feed("LOCAL_LLM_LISTEN="@, listen);
    lemma_no_feed("LLAMA_CACHE="@, dir);
    lemma_no_feed("HF_HOME="@, cache);
    lemma_no_feed("HF_HUB_CACHE="@, cache);
    let lines = env_lines(cfg).push(Seq::empty());
    let n = lines.len();
    assert(lines[0] == "# Generated by local-llm-resourced. Do not edit by hand."@);
    assert(lines[1] == "LOCAL_LLM_LISTEN="@ + listen);
    assert(lines[2] == "LLAMA_CACHE="@ + dir);
    assert(lines[3] == "HF_HOME="@ + cache);
    assert(lines[4] == "HF_HUB_CACHE="@ + cache);
    assert(lines[n - 1] == Seq::<char>::empty());
    if !cfg.storage.auto_download {
        assert(n == 7 && lines[5] == "HF_HUB_OFFLINE=1"@);
    } else {
        assert(n == 6);
    }
    assert forall|i: int| 0 <= i < n implies !(#[trigger] lines[i]).contains('\n') by {}
    reveal_strlit("\n");
    assert("\n"@ =~= seq!['\n']);
    split_undoes_join(lines, '\n');
    assert(split_at_char(env_text(cfg), '\n') == lines);
    lemma_one_assignment("LOCAL_LLM_LISTEN"@, listen, key, value);
    lemma_one_assignment("LLAMA_CACHE"@, dir, key, value);
    lemma_one_assignment("HF_HOME"@, cache, key, value);
    lemma_one_assignment("HF_HUB_CACHE"@, cache, key, value);
    lemma_one_assignment("HF_HUB_OFFLINE"@, "1"@, key, value);
    assert(!assigns(lines[0], key, value)) by {
        if assigns(lines[0], key, value) {
            assert(lines[0][key.len() as int] == '=');
            assert(lines[0].contains('='));
        }
    }
    assert(!assigns(lines[n - 1], key, value)) by {
        if assigns(lines[n - 1], key, value) {
            assert(lines[n - 1].len() > 0);
        }
    }
    if holds_assignment(env_text(cfg), key, value) {
        let i = choose|i: int| 0 <= i < n && assigns(#[trigger] lines[i], key, value);
        assert(i == 1 || i == 2 || i == 3 || i == 4 || i == 5);
    }
    if key == "LOCAL_LLM_LISTEN"@ && value == listen {
        assert(assigns(lines[1], key, value));
    }
    if key == "LLAMA_CACHE"@ && value == dir {
        assert(assigns(lines[2], key, value));
    }
    if key == "HF_HOME"@ && value == cache {
        assert(assigns(lines[3], key, value));
    }
    if key == "HF_HUB_CACHE"@ && value == cache {
        assert(assigns(lines[4], key, value));
    }
    if key == "HF_HUB_OFFLINE"@ && value == "1"@ && !cfg.storage.auto_download {
        assert(assigns(lines[5], key, value));
    }
}

/// The environment file is its lines in this order, each ended by a line feed.
pub proof fn environment_is_laid_out(cfg: Config)
    ensures
        env_text(cfg) == "# Generated by local-llm-resourced. Do not edit by hand."@ + "\n"@ + (
        "LOCAL_LLM_LISTEN="@ + cfg.server.listen@) + "\n"@ + ("LLAMA_CACHE="@
            + cfg.storage.models_dir@) + "\n"@ + ("HF_HOME="@ + cfg.storage.hf_cache_dir@) + "\n"@
            + ("HF_HUB_CACHE="@ + cfg.storage.hf_cache_dir@) + "\n"@ + (
        if cfg.storage.auto_download {
            Seq::<char>::empty()
        } else {
            "HF_HUB_OFFLINE=1"@ + "\n"@
        }),
{
    let lines = env_lines(cfg);
    let none = Seq::<char>::empty();
    let feed = "\n"@;
    let all = lines.push(none);
    assert(all =~= lines + seq![none]);
    joining_is_piecewise(lines, seq![none], feed);
    joining_is_piecewise(seq![none], lines, feed);
    let l0 = seq![lines[0]];
    let l1 = seq![lines[1]];
    let l2 = seq![lines[2]];
    let l3 = seq![lines[3]];
    let l4 = seq![lines[4]];
    joining_is_piecewise(l0, l1, feed);
    joining_is_piecewise(l1, l2, feed);
    joining_is_piecewise(l2, l3, feed);
    joining_is_piecewise(l3, l4, feed);
    joining_is_piecewise(l4, l0, feed);
    joining_is_piecewise(l0 + l1, l2, feed);
    joining_is_piecewise(l0 + l1 + l2, l3, feed);
    joining_is_piecewise(l0 + l1 + l2 + l3, l4, feed);
    let five = l0 + l1 + l2 + l3 + l4;
    if cfg.storage.auto_download {
        assert(lines =~= five);
        assert(env_text(cfg) =~= joined(five, feed) + feed + none);
    } else {
        let l5 = seq![lines[5]];
        assert(lines =~= five + l5);
        joining_is_piecewise(five, l5, feed);
        joining_is_piecewise(l5, five, feed);
        assert(env_text(cfg) =~= joined(five, feed) + feed + lines[5] + feed);
    }
}

/// Texts are ordered by their first difference: a text comes before every longer one
/// that begins with it, and else the smaller character decides.
pub proof fn first_difference_decides(
    common: Seq<char>,
    a: Seq<char>,
    b: Seq<char>,
)
    requires
        b.len() > 0,
        a.len() > 0 ==> a[0] != b[0],
    ensures
        text_less(common + a, common + b) <==> a.len() == 0 || a[0] < b[0],
        text_less(common + b, common + a) <==> a.len() > 0 && b[0] < a[0],
    decreases common.len(),
{
    if common.len() == 0 {
        assert(common + a =~= a);
        assert(common + b =~= b);
    } else {
        first_difference_decides(common.drop_first(), a, b);
        assert((common + a).drop_first() =~= common.drop_first() + a);
        assert((common + b).drop_first() =~= common.drop_first() + b);
    }
}

/// An argument of letters, digits and `_-./:=+` alone is written as it is; every
/// other one, the empty one too, stands between single quotes.
pub proof fn only_plain_arguments_stay_bare(arg: Seq<char>)
    ensures
        ({
            let bare = arg.len() > 0 && forall|i: int|
                0 <= i < arg.len() ==> {
                    let c = #[trigger] arg[i];
                    'a' <= c <= 'z' || 'A' <= c <= 'Z' || '0' <= c <= '9' || c == '_' || c == '-'
                        || c == '.' || c == '/' || c == ':' || c == '=' || c == '+'
                };
            &&& bare ==> quoted(arg) == arg
            &&& !bare ==> quoted(arg).len() >= 2 && quoted(arg)[0] == '\'' && quoted(arg)[quoted(
                arg,
            ).len() - 1] == '\''
        }),
{
    let bare = arg.len() > 0 && forall|i: int|
        0 <= i < arg.len() ==> {
            let c = #[trigger] arg[i];
            'a' <= c <= 'z' || 'A' <= c <= 'Z' || '0' <= c <= '9' || c == '_' || c == '-' || c
                == '.' || c == '/' || c == ':' || c == '=' || c == '+'
        };
    if bare {
        assert forall|i: int| 0 <= i < arg.len() implies is_plain(#[trigger] arg[i]) by {}
    } else if arg.len() > 0 {
        let i = choose|i: int|
            0 <= i < arg.len() && {
                let c = #[trigger] arg[i];
                !('a' <= c <= 'z' || 'A' <= c <= 'Z' || '0' <= c <= '9' || c == '_' || c == '-' || c
                    == '.' || c == '/' || c == ':' || c == '=' || c == '+')
            };
        assert(!is_plain(arg[i]));
    }
}

/// Whether an argument needs no quotes.
pub open spec fn is_bare(arg: Seq<char>) -> bool {
    arg.len() > 0 && forall|i: int|
        0 <= i < arg.len() ==> {
            let c = #[trigger] arg[i];
            'a' <= c <= 'z' || 'A' <= c <= 'Z' || '0' <= c <= '9' || c == '_' || c == '-' || c
                == '.' || c == '/' || c == ':' || c == '=' || c == '+'
        }
}

proof fn lemma_bare(arg: Seq<char>)
    ensures
        is_bare(arg) <==> arg.len() > 0 && all_plain(arg),
{
    if is_bare(arg) {
        assert forall|i: int| 0 <= i < arg.len() implies is_plain(#[trigger] arg[i]) by {}
    }
    if arg.len() > 0 && all_plain(arg) {
        assert forall|i: int| 0 <= i < arg.len() implies {
            let c = #[trigger] arg[i];
            'a' <= c <= 'z' || 'A' <= c <= 'Z' || '0' <= c <= '9' || c == '_' || c == '-' || c
                == '.' || c == '/' || c == ':' || c == '=' || c == '+'
        } by {
            assert(is_plain(arg[i]));
        }
    }
}

proof fn lemma_escaped_concat(a: Seq<char>, b: Seq<char>)
    ensures
        escaped(a + b) == escaped(a) + escaped(b),
    decreases b.len(),
{
    if b.len() == 0 {
        assert(a + b =~= a);
        assert(escaped(a) + escaped(b) =~= escaped(a));
    } else {
        lemma_escaped_concat(a, b.drop_last());
        assert((a + b).drop_last() =~= a + b.drop_last());
        assert((a + b).last() == b.last());
        assert(escaped(a + b) =~= escaped(a) + escaped(b));
    }
}

proof fn lemma_escaped_same(a: Seq<char>)
    requires
        !a.contains('\''),
    ensures
        escaped(a) == a,
    decreases a.len(),
{
    if a.len() > 0 {
        assert(a.contains(a[a.len() - 1]));
        assert forall|i: int| 0 <= i < a.drop_last().len() implies a.drop_last()[i] != '\'' by {
            assert(a.contains(a[i]));
        }
        lemma_escaped_same(a.drop_last());
        assert(a.drop_last().push(a.last()) =~= a);
    } else {
        assert(escaped(a) =~= a);
    }
}

/// Between the quotes stands the argument itself, with every single quote in it
/// written as a closing quote, a quote behind a backslash and an opening quote.
pub proof fn quotes_hold_the_argument(a: Seq<char>, b: Seq<char>)
    requires
        !a.contains('\''),
    ensures
        !is_bare(a) ==> quoted(a) == seq!['\''] + a + seq!['\''],
        quoted(a + seq!['\''] + b) == seq!['\''] + a + seq!['\'', '\\', '\'', '\''] + (if is_bare(
            b,
        ) {
            b.push('\'')
        } else {
            quoted(b).skip(1)
        }),
{
    lemma_bare(a);
    lemma_bare(b);
    lemma_escaped_same(a);
    let q = seq!['\''];
    let s = a + q + b;
    assert(s[a.len() as int] == '\'');
    assert(!is_plain('\''));
    assert(!all_plain(s)) by {
        if all_plain(s) {
            assert(is_plain(s[a.len() as int]));
        }
    }
    lemma_escaped_concat(a + q, b);
    lemma_escaped_concat(a, q);
    assert(q.drop_last() =~= Seq::<char>::empty());
    assert(escaped(q) =~= seq!['\'', '\\', '\'', '\'']) by {
        reveal_with_fuel(escaped, 2);
    }
    if is_bare(b) {
        assert(!b.contains('\'')) by {
            assert forall|i: int| 0 <= i < b.len() implies b[i] != '\'' by {
                assert(is_plain(b[i]));
            }
        }
        lemma_escaped_same(b);
        assert(quoted(s) =~= q + a + seq!['\'', '\\', '\'', '\''] + b.push('\''));
    } else {
        assert(quoted(b).skip(1) =~= escaped(b) + q);
        assert(quoted(s) =~= q + a + seq!['\'', '\\', '\'', '\''] + quoted(b).skip(1));
    }
}

} // verus!
