//! What a configuration means: whose settings count, and when and why it is refused.

use crate::addr::socket_addr_text;
use crate::schema::{
    first_group_fault, first_model_fault, first_repeated, first_unknown, group_fault, group_names,
    lemma_group_fault_stays, lemma_model_fault_stays, lemma_no_group_fault, lemma_no_model_fault,
    lemma_none_repeated, lemma_none_unknown, lemma_repeated_stays, lemma_unknown_stays, loaded,
    model_fault, model_names, routable_names, Config, Group, Model,
};
use crate::text::{begins_with, texts, trimmed};
use vstd::prelude::*;

verus! {

/// A setting that a model has of its own counts, whatever the default is; the
/// default counts for a model that leaves the setting out.
pub proof fn own_setting_wins(cfg: Config, m: Model)
    ensures
        m.ttl matches Some(own) ==> cfg.ttl_of(m) == own,
        m.ttl is None ==> cfg.ttl_of(m) == cfg.defaults.ttl,
        m.context_size matches Some(own) ==> cfg.context_of(m) == own,
        m.context_size is None ==> cfg.context_of(m) == cfg.defaults.context_size,
        m.gpu_layers matches Some(own) ==> cfg.gpu_layers_of(m) == own,
        m.gpu_layers is None ==> cfg.gpu_layers_of(m) == cfg.defaults.gpu_layers,
        m.flash_attention matches Some(own) ==> cfg.flash_attention_of(m) == own,
        m.flash_attention is None ==> cfg.flash_attention_of(m) == cfg.defaults.flash_attention,
{
}

/// Whether a model has a name that is not blank and exactly one source.
pub open spec fn is_complete(m: Model) -> bool {
    &&& trimmed(m.name@).len() > 0
    &&& m.hf_repo is Some ==> m.path is None
    &&& m.hf_repo is None ==> m.path is Some
}

/// Whether the first `n` models are complete and have different names.
pub open spec fn models_fine(models: Seq<Model>, n: int) -> bool {
    &&& forall|i: int| 0 <= i < n ==> is_complete(#[trigger] models[i])
    &&& forall|i: int, j: int|
        0 <= i < j < n ==> (#[trigger] models[i]).name@ != (#[trigger] models[j]).name@
}

/// Whether a request for this name can be routed to one of the models.
pub open spec fn routes(models: Seq<Model>, name: Seq<char>) -> bool {
    exists|i: int|
        0 <= i < models.len() && ((#[trigger] models[i]).name@ == name || exists|k: int|
            0 <= k < models[i].aliases@.len() && (#[trigger] models[i].aliases@[k])@ == name)
}

/// Whether every name that the models can be called by means one of them: no alias
/// is the name of a model, or stands twice.
pub open spec fn calls_are_clear(models: Seq<Model>) -> bool {
    &&& forall|i: int, j: int|
        0 <= i < j < models.len() ==> (#[trigger] models[i]).name@ != (#[trigger] models[j]).name@
    &&& forall|i: int, j: int, k: int|
        0 <= i < models.len() && 0 <= j < models.len() && 0 <= k < models[i].aliases@.len()
            ==> (#[trigger] models[i].aliases@[k])@ != (#[trigger] models[j]).name@
    &&& forall|i: int, k: int, j: int, l: int|
        0 <= i < models.len() && 0 <= k < models[i].aliases@.len() && 0 <= j < models.len() && 0
            <= l < models[j].aliases@.len() && (i != j || k != l) ==> (
        #[trigger] models[i].aliases@[k])@ != (#[trigger] models[j].aliases@[l])@
}

proof fn lemma_models_fine(models: Seq<Model>, n: int)
    requires
        0 <= n <= models.len(),
    ensures
        first_model_fault(models, n) is None <==> models_fine(models, n),
{
    lemma_no_model_fault(models, n);
    let names = model_names(models);
    let some = names.take(n);
    assert(forall|i: int| 0 <= i < models.len() ==> #[trigger] names[i] == models[i].name@);
    assert(forall|i: int| 0 <= i < n ==> #[trigger] some[i] == models[i].name@);
    if models_fine(models, n) {
        assert forall|i: int, j: int| 0 <= i < some.len() && 0 <= j < some.len() && i != j implies some[i]
            != some[j] by {
            if i < j {
                assert(models[i].name@ != models[j].name@);
            } else {
                assert(models[j].name@ != models[i].name@);
            }
        }
        assert forall|k: int| 0 <= k < n implies {
            &&& trimmed((#[trigger] models[k]).name@).len() > 0
            &&& models[k].hf_repo is Some <==> models[k].path is None
        } by {
            assert(is_complete(models[k]));
        }
    }
    if first_model_fault(models, n) is None {
        assert forall|i: int, j: int| 0 <= i < j < n implies (#[trigger] models[i]).name@ != (
        #[trigger] models[j]).name@ by {
            assert(some[i] != some[j]);
        }
    }
}

#[verifier::rlimit(40)]
proof fn lemma_routes(models: Seq<Model>, name: Seq<char>)
    ensures
        routable_names(models).contains(name) <==> routes(models, name),
    decreases models.len(),
{
    let all = routable_names(models);
    if models.len() > 0 {
        let shorter = models.drop_last();
        let before = routable_names(shorter);
        let m = models.last();
        let n = models.len() - 1;
        lemma_routes(shorter, name);
        let aliases = texts(m.aliases@);
        assert(all == before.push(m.name@) + aliases);
        if all.contains(name) {
            let p = choose|p: int| 0 <= p < all.len() && all[p] == name;
            if p < before.len() {
                assert(before[p] == name);
                assert(before.contains(name));
                let i = choose|i: int|
                    0 <= i < shorter.len() && ((#[trigger] shorter[i]).name@ == name || exists|k: int|
                        0 <= k < shorter[i].aliases@.len() && (#[trigger] shorter[i].aliases@[k])@
                            == name);
                assert(models[i] == shorter[i]);
            } else if p == before.len() {
                assert(models[n].name@ == name);
            } else {
                let k = p - before.len() - 1;
                assert(aliases[k] == name);
                assert(models[n].aliases@[k]@ == name);
            }
        }
        if routes(models, name) {
            let i = choose|i: int|
                0 <= i < models.len() && ((#[trigger] models[i]).name@ == name || exists|k: int|
                    0 <= k < models[i].aliases@.len() && (#[trigger] models[i].aliases@[k])@
                        == name);
            if i < n {
                assert(shorter[i] == models[i]);
                assert(routes(shorter, name));
                let p = choose|p: int| 0 <= p < before.len() && before[p] == name;
                assert(all[p] == name);
            } else if m.name@ == name {
                assert(all[before.len() as int] == name);
            } else {
                let k = choose|k: int| 0 <= k < m.aliases@.len() && (#[trigger] m.aliases@[k])@ == name;
                assert(aliases[k] == name);
                assert(all[before.len() + 1 + k] == name);
            }
        }
    }
}

proof fn lemma_calls_are_clear(models: Seq<Model>)
    ensures
        routable_names(models).no_duplicates() <==> calls_are_clear(models),
    decreases models.len(),
{
    if models.len() > 0 {
        let shorter = models.drop_last();
        let n = models.len() - 1;
        let m = models[n];
        let before = routable_names(shorter);
        let all = routable_names(models);
        let aliases = texts(m.aliases@);
        lemma_calls_are_clear(shorter);
        assert(forall|i: int| 0 <= i < n ==> #[trigger] shorter[i] == models[i]);
        assert(all == before.push(m.name@) + aliases);
        if calls_are_clear(models) {
            assert(calls_are_clear(shorter)) by {
                assert forall|i: int, j: int| 0 <= i < j < shorter.len() implies (
                #[trigger] shorter[i]).name@ != (#[trigger] shorter[j]).name@ by {
                    assert(models[i].name@ != models[j].name@);
                }
                assert forall|i: int, j: int, k: int|
                    0 <= i < shorter.len() && 0 <= j < shorter.len() && 0 <= k
                        < shorter[i].aliases@.len() implies (#[trigger] shorter[i].aliases@[k])@ != (
                #[trigger] shorter[j]).name@ by {
                    assert(models[i].aliases@[k]@ != models[j].name@);
                }
                assert forall|i: int, k: int, j: int, l: int|
                    0 <= i < shorter.len() && 0 <= k < shorter[i].aliases@.len() && 0 <= j
                        < shorter.len() && 0 <= l < shorter[j].aliases@.len() && (i != j || k
                        != l) implies (#[trigger] shorter[i].aliases@[k])@ != (
                #[trigger] shorter[j].aliases@[l])@ by {
                    assert(models[i].aliases@[k]@ != models[j].aliases@[l]@);
                }
            }
            assert forall|p: int, q: int| 0 <= p < q < all.len() implies all[p] != all[q] by {
                if q < before.len() {
                    assert(before[p] != before[q]);
                } else if p < before.len() {
                    assert(before[p] == all[p]);
                    assert(before.contains(all[p]));
                    lemma_routes(shorter, all[p]);
                    let i = choose|i: int|
                        0 <= i < shorter.len() && ((#[trigger] shorter[i]).name@ == all[p]
                            || exists|k: int|
                            0 <= k < shorter[i].aliases@.len() && (
                            #[trigger] shorter[i].aliases@[k])@ == all[p]);
                    assert(shorter[i] == models[i]);
                    if q == before.len() {
                        if models[i].name@ == all[p] {
                            assert(models[i].name@ != models[n].name@);
                        } else {
                            let k = choose|k: int|
                                0 <= k < shorter[i].aliases@.len() && (
                                #[trigger] shorter[i].aliases@[k])@ == all[p];
                            assert(models[i].aliases@[k]@ != models[n].name@);
                        }
                    } else {
                        let l = q - before.len() - 1;
                        assert(all[q] == aliases[l]);
                        assert(aliases[l] == models[n].aliases@[l]@);
                        if models[i].name@ == all[p] {
                            assert(models[n].aliases@[l]@ != models[i].name@);
                        } else {
                            let k = choose|k: int|
                                0 <= k < shorter[i].aliases@.len() && (
                                #[trigger] shorter[i].aliases@[k])@ == all[p];
                            assert(models[i].aliases@[k]@ != models[n].aliases@[l]@);
                        }
                    }
                } else {
                    let l = q - before.len() - 1;
                    assert(all[q] == models[n].aliases@[l]@);
                    if p == before.len() {
                        assert(models[n].aliases@[l]@ != models[n].name@);
                    } else {
                        let k = p - before.len() - 1;
                        assert(all[p] == models[n].aliases@[k]@);
                        assert(models[n].aliases@[k]@ != models[n].aliases@[l]@);
                    }
                }
            }
        }
        if all.no_duplicates() {
            assert(before.no_duplicates()) by {
                assert forall|p: int, q: int|
                    0 <= p < before.len() && 0 <= q < before.len() && p != q implies before[p]
                    != before[q] by {
                    assert(all[p] != all[q]);
                }
            }
            lemma_clear_with_last(models);
        }
    }
}

/// With a last model whose names are new and different, calls stay clear.
proof fn lemma_clear_with_last(models: Seq<Model>)
    requires
        models.len() > 0,
        routable_names(models).no_duplicates(),
        calls_are_clear(models.drop_last()),
    ensures
        calls_are_clear(models),
{
    let shorter = models.drop_last();
    let n = models.len() - 1;
    let m = models[n];
    let before = routable_names(shorter);
    let all = routable_names(models);
    let aliases = texts(m.aliases@);
    let at = before.len() as int;
    assert(forall|i: int| 0 <= i < n ==> #[trigger] shorter[i] == models[i]);
    assert(all == before.push(m.name@) + aliases);
    assert(all[at] == m.name@);
    assert forall|l: int| 0 <= l < m.aliases@.len() implies all[at + 1 + l] == (
    #[trigger] m.aliases@[l])@ by {
        assert(aliases[l] == m.aliases@[l]@);
    }
    assert forall|i: int, x: Seq<char>|
        0 <= i < n && #[trigger] is_called(models[i], x) implies x != m.name@ && forall|l: int|
        0 <= l < m.aliases@.len() ==> x != (#[trigger] m.aliases@[l])@ by {
        assert(shorter[i] == models[i]);
        assert(routes(shorter, x)) by {
            assert(shorter[i].name@ == x || exists|k: int|
                0 <= k < shorter[i].aliases@.len() && (#[trigger] shorter[i].aliases@[k])@ == x);
        }
        lemma_routes(shorter, x);
        let p = choose|p: int| 0 <= p < before.len() && before[p] == x;
        assert(all[p] == x);
        assert(all[p] != all[at]);
        assert forall|l: int| 0 <= l < m.aliases@.len() implies x != (
        #[trigger] m.aliases@[l])@ by {
            assert(all[p] != all[at + 1 + l]);
        }
    }
    assert forall|i: int, j: int| 0 <= i < j < models.len() implies (#[trigger] models[i]).name@ != (
    #[trigger] models[j]).name@ by {
        if j < n {
            assert(shorter[i].name@ != shorter[j].name@);
        } else {
            assert(is_called(models[i], models[i].name@));
        }
    }
    assert forall|i: int, j: int, k: int|
        0 <= i < models.len() && 0 <= j < models.len() && 0 <= k
            < models[i].aliases@.len() implies (#[trigger] models[i].aliases@[k])@ != (
    #[trigger] models[j]).name@ by {
        let x = models[i].aliases@[k]@;
        if i < n && j < n {
            assert(shorter[i].aliases@[k]@ != shorter[j].name@);
        } else if i < n {
            assert(is_called(models[i], x));
        } else if j < n {
            assert(is_called(models[j], models[j].name@));
            assert(m.aliases@[k]@ == x);
        } else {
            assert(all[at] != all[at + 1 + k]);
        }
    }
    assert forall|i: int, k: int, j: int, l: int|
        0 <= i < models.len() && 0 <= k < models[i].aliases@.len() && 0 <= j < models.len() && 0
            <= l < models[j].aliases@.len() && (i != j || k != l) implies (
    #[trigger] models[i].aliases@[k])@ != (#[trigger] models[j].aliases@[l])@ by {
        let x = models[i].aliases@[k]@;
        let y = models[j].aliases@[l]@;
        if i < n && j < n {
            assert(shorter[i].aliases@[k]@ != shorter[j].aliases@[l]@);
        } else if i < n {
            assert(is_called(models[i], x));
            assert(m.aliases@[l]@ == y);
        } else if j < n {
            assert(is_called(models[j], y));
            assert(m.aliases@[k]@ == x);
        } else {
            assert(m.aliases@[k]@ == x && m.aliases@[l]@ == y);
            assert(all[at + 1 + k] != all[at + 1 + l]);
        }
    }
}

/// Whether a model can be called by this name.
spec fn is_called(m: Model, name: Seq<char>) -> bool {
    m.name@ == name || exists|k: int| 0 <= k < m.aliases@.len() && (#[trigger] m.aliases@[k])@ == name
}

/// Whether a name is the name of one of the models.
pub open spec fn is_a_model(models: Seq<Model>, name: Seq<char>) -> bool {
    exists|i: int| 0 <= i < models.len() && (#[trigger] models[i]).name@ == name
}

/// Whether the first `n` groups have different names and only models as members.
pub open spec fn groups_fine(groups: Seq<Group>, models: Seq<Model>, n: int) -> bool {
    &&& forall|i: int, j: int|
        0 <= i < j < n ==> (#[trigger] groups[i]).name@ != (#[trigger] groups[j]).name@
    &&& forall|g: int, k: int|
        0 <= g < n && 0 <= k < groups[g].members@.len() ==> is_a_model(
            models,
            (#[trigger] groups[g].members@[k])@,
        )
}

proof fn lemma_is_a_model(models: Seq<Model>, name: Seq<char>)
    ensures
        model_names(models).contains(name) <==> is_a_model(models, name),
{
    let names = model_names(models);
    assert(forall|i: int| 0 <= i < models.len() ==> #[trigger] names[i] == models[i].name@);
    if names.contains(name) {
        let i = choose|i: int| 0 <= i < names.len() && names[i] == name;
        assert(models[i].name@ == name);
    }
    if is_a_model(models, name) {
        let i = choose|i: int| 0 <= i < models.len() && (#[trigger] models[i]).name@ == name;
        assert(names[i] == name);
    }
}

proof fn lemma_groups_fine(groups: Seq<Group>, models: Seq<Model>, n: int)
    requires
        0 <= n <= groups.len(),
    ensures
        first_group_fault(groups, model_names(models), n) is None <==> groups_fine(
            groups,
            models,
            n,
        ),
{
    let names = model_names(models);
    lemma_no_group_fault(groups, names, n);
    let some = group_names(groups).take(n);
    assert(forall|i: int| 0 <= i < n ==> #[trigger] some[i] == groups[i].name@);
    assert forall|g: int, k: int| 0 <= g < n && 0 <= k < groups[g].members@.len() implies (
    names.contains((#[trigger] groups[g].members@[k])@) <==> is_a_model(
        models,
        groups[g].members@[k]@,
    )) by {
        lemma_is_a_model(models, groups[g].members@[k]@);
    }
    if groups_fine(groups, models, n) {
        assert forall|i: int, j: int| 0 <= i < some.len() && 0 <= j < some.len() && i != j implies some[i]
            != some[j] by {
            if i < j {
                assert(groups[i].name@ != groups[j].name@);
            } else {
                assert(groups[j].name@ != groups[i].name@);
            }
        }
    }
    if some.no_duplicates() {
        assert forall|i: int, j: int| 0 <= i < j < n implies (#[trigger] groups[i]).name@ != (
        #[trigger] groups[j]).name@ by {
            assert(some[i] != some[j]);
        }
    }
}

/// A configuration passes exactly where it has a model, every model has a name that
/// is not blank and exactly one source, no two models share a name, no alias is a
/// model's name or another alias, no two groups share a name, every member of a
/// group is a model's name, and the listen address is a socket address or begins
/// with a colon.
pub proof fn validation_asks_for(cfg: Config, listen_is_addr: bool)
    ensures
        cfg.fault(listen_is_addr) is None <==> {
            &&& cfg.models@.len() > 0
            &&& models_fine(cfg.models@, cfg.models@.len() as int)
            &&& calls_are_clear(cfg.models@)
            &&& groups_fine(cfg.groups@, cfg.models@, cfg.groups@.len() as int)
            &&& listen_is_addr || (cfg.server.listen@.len() > 0 && cfg.server.listen@[0] == ':')
        },
{
    let models = cfg.models@;
    let routable = routable_names(models);
    lemma_models_fine(models, models.len() as int);
    lemma_none_repeated(routable, routable.len() as int);
    assert(routable.take(routable.len() as int) =~= routable);
    lemma_calls_are_clear(models);
    lemma_groups_fine(cfg.groups@, models, cfg.groups@.len() as int);
    lemma_leading_colon(cfg.server.listen@);
}

proof fn lemma_leading_colon(s: Seq<char>)
    ensures
        begins_with(s, seq![':']) <==> s.len() > 0 && s[0] == ':',
{
    if s.len() > 0 {
        if s[0] == ':' {
            assert(s.subrange(0, 1) =~= seq![':']);
        }
        if begins_with(s, seq![':']) {
            assert(s.subrange(0, 1)[0] == ':');
        }
    }
}

/// A configuration without models is refused as such. Of the others, the first model
/// that is not in order gives the reason: a blank name, a name that an earlier model
/// has, no source, or two.
pub proof fn first_faulty_model_is_named(cfg: Config, k: int, listen_is_addr: bool)
    ensures
        cfg.models@.len() == 0 ==> cfg.fault(listen_is_addr) == Some(
            "at least one [[models]] entry is required"@,
        ),
        0 <= k < cfg.models@.len() && models_fine(cfg.models@, k) ==> {
            let m = cfg.models@[k];
            let blank = trimmed(m.name@).len() == 0;
            let taken = exists|i: int| 0 <= i < k && (#[trigger] cfg.models@[i]).name@ == m.name@;
            &&& blank ==> cfg.fault(listen_is_addr) == Some("a model has an empty name"@)
            &&& !blank && taken ==> cfg.fault(listen_is_addr) == Some(
                "duplicate model name: "@ + m.name@,
            )
            &&& !blank && !taken && m.hf_repo is None && m.path is None ==> cfg.fault(
                listen_is_addr,
            ) == Some("model '"@ + m.name@ + "' must set either `hf_repo` or `path`"@)
            &&& !blank && !taken && m.hf_repo is Some && m.path is Some ==> cfg.fault(
                listen_is_addr,
            ) == Some("model '"@ + m.name@ + "' sets both `hf_repo` and `path`; choose one"@)
        },
{
    let models = cfg.models@;
    if 0 <= k < models.len() && models_fine(models, k) {
        lemma_models_fine(models, k);
        let m = models[k];
        let earlier = model_names(models).take(k);
        assert(forall|i: int| 0 <= i < k ==> #[trigger] earlier[i] == models[i].name@);
        let taken = exists|i: int| 0 <= i < k && (#[trigger] models[i]).name@ == m.name@;
        if taken {
            let i = choose|i: int| 0 <= i < k && (#[trigger] models[i]).name@ == m.name@;
            assert(earlier[i] == m.name@);
        }
        if earlier.contains(m.name@) {
            let i = choose|i: int| 0 <= i < earlier.len() && earlier[i] == m.name@;
            assert(models[i].name@ == m.name@);
        }
        if model_fault(models, k) is Some {
            assert(first_model_fault(models, k + 1) == model_fault(models, k));
            lemma_model_fault_stays(models, k + 1, models.len() as int);
        }
    }
}

/// The names that requests are routed by stand in the order of the models, each
/// model's aliases behind its name.
pub proof fn routable_names_follow_the_models(models: Seq<Model>, m: Model)
    ensures
        routable_names(models.push(m)) == routable_names(models).push(m.name@) + texts(m.aliases@),
        routable_names(Seq::<Model>::empty()) == Seq::<Seq<char>>::empty(),
{
    assert(models.push(m).drop_last() =~= models);
    assert(routable_names(Seq::<Model>::empty()) =~= Seq::<Seq<char>>::empty());
}

/// Where the models themselves are in order, the first name in the row of names and
/// aliases that stands there before is the reason.
pub proof fn first_repeated_name_is_given(cfg: Config, n: int, listen_is_addr: bool)
    requires
        cfg.models@.len() > 0,
        models_fine(cfg.models@, cfg.models@.len() as int),
        0 <= n < routable_names(cfg.models@).len(),
        routable_names(cfg.models@).take(n).no_duplicates(),
        routable_names(cfg.models@).take(n).contains(routable_names(cfg.models@)[n]),
    ensures
        cfg.fault(listen_is_addr) == Some(
            "name/alias '"@ + routable_names(cfg.models@)[n] + "' is used more than once"@,
        ),
{
    let names = routable_names(cfg.models@);
    lemma_models_fine(cfg.models@, cfg.models@.len() as int);
    lemma_none_repeated(names, n);
    assert(first_repeated(names, n + 1) == Some(names[n]));
    lemma_repeated_stays(names, n + 1, names.len() as int);
}

/// Where the models are in order, the first group that is not gives the reason: a
/// name that an earlier group has, or its first member that is no model.
pub proof fn first_faulty_group_is_named(cfg: Config, g: int, k: int, listen_is_addr: bool)
    requires
        cfg.models@.len() > 0,
        models_fine(cfg.models@, cfg.models@.len() as int),
        calls_are_clear(cfg.models@),
        0 <= g < cfg.groups@.len(),
        groups_fine(cfg.groups@, cfg.models@, g),
    ensures
        ({
            let group = cfg.groups@[g];
            let taken = exists|i: int| 0 <= i < g && (#[trigger] cfg.groups@[i]).name@
                == group.name@;
            &&& taken ==> cfg.fault(listen_is_addr) == Some("duplicate group name: "@ + group.name@)
            &&& !taken && 0 <= k < group.members@.len() && !is_a_model(
                cfg.models@,
                group.members@[k]@,
            ) && (forall|i: int|
                0 <= i < k ==> is_a_model(cfg.models@, (#[trigger] group.members@[i])@))
                ==> cfg.fault(listen_is_addr) == Some(
                "group '"@ + group.name@ + "' references unknown model '"@ + group.members@[k]@ + "'"@,
            )
        }),
{
    let models = cfg.models@;
    let names = model_names(models);
    let groups = cfg.groups@;
    let group = groups[g];
    let routable = routable_names(models);
    lemma_models_fine(models, models.len() as int);
    lemma_none_repeated(routable, routable.len() as int);
    assert(routable.take(routable.len() as int) =~= routable);
    lemma_calls_are_clear(models);
    lemma_groups_fine(groups, models, g);
    let earlier = group_names(groups).take(g);
    assert(forall|i: int| 0 <= i < g ==> #[trigger] earlier[i] == groups[i].name@);
    let taken = exists|i: int| 0 <= i < g && (#[trigger] groups[i]).name@ == group.name@;
    if taken {
        let i = choose|i: int| 0 <= i < g && (#[trigger] groups[i]).name@ == group.name@;
        assert(earlier[i] == group.name@);
    }
    if earlier.contains(group.name@) {
        let i = choose|i: int| 0 <= i < earlier.len() && earlier[i] == group.name@;
        assert(groups[i].name@ == group.name@);
    }
    if 0 <= k < group.members@.len() && !is_a_model(models, group.members@[k]@) && (forall|i: int|
        0 <= i < k ==> is_a_model(models, (#[trigger] group.members@[i])@)) {
        let members = texts(group.members@);
        assert forall|i: int| 0 <= i < k implies names.contains(#[trigger] members[i]) by {
            assert(members[i] == group.members@[i]@);
            lemma_is_a_model(models, members[i]);
        }
        lemma_none_unknown(members, names, k);
        assert(members[k] == group.members@[k]@);
        lemma_is_a_model(models, members[k]);
        assert(first_unknown(members, names, k + 1) == Some(members[k]));
        lemma_unknown_stays(members, names, k + 1, members.len() as int);
    }
    if group_fault(groups, names, g) is Some {
        assert(first_group_fault(groups, names, g + 1) == group_fault(groups, names, g));
        lemma_group_fault_stays(groups, names, g + 1, groups.len() as int);
    }
}

/// Where all else is in order, a listen address that is neither a socket address nor
/// begins with a colon is the reason.
pub proof fn unusable_listen_address_is_named(cfg: Config)
    requires
        cfg.models@.len() > 0,
        models_fine(cfg.models@, cfg.models@.len() as int),
        calls_are_clear(cfg.models@),
        groups_fine(cfg.groups@, cfg.models@, cfg.groups@.len() as int),
        cfg.server.listen@.len() == 0 || cfg.server.listen@[0] != ':',
    ensures
        cfg.fault(false) == Some(
            "server.listen '"@ + cfg.server.listen@ + "' is not a valid host:port"@,
        ),
{
    let models = cfg.models@;
    let routable = routable_names(models);
    lemma_models_fine(models, models.len() as int);
    lemma_none_repeated(routable, routable.len() as int);
    assert(routable.take(routable.len() as int) =~= routable);
    lemma_calls_are_clear(models);
    lemma_groups_fine(cfg.groups@, models, cfg.groups@.len() as int);
    lemma_leading_colon(cfg.server.listen@);
}

/// A file that could not be read or parsed is refused with its path and the cause;
/// one that was parsed is refused with the fault that validation finds, and is taken
/// as it is where there is none.
pub proof fn loading_tells_what_went_wrong(path: Seq<char>, cause: String, cfg: Config)
    ensures
        loaded(Err(cause), path) == Err::<Config, Seq<char>>(
            "failed to read config "@ + path + ": "@ + cause@,
        ),
        loaded(Ok(Err(cause)), path) == Err::<Config, Seq<char>>(
            "failed to parse TOML in "@ + path + ": "@ + cause@,
        ),
        match cfg.fault(socket_addr_text(cfg.server.listen@)) {
            Some(reason) => loaded(Ok(Ok(cfg)), path) == Err::<Config, Seq<char>>(
                "invalid configuration: "@ + reason,
            ),
            None => loaded(Ok(Ok(cfg)), path) == Ok::<Config, Seq<char>>(cfg),
        },
{
}

} // verus!
