//! What resource sampling reads in the outputs that it is given.

use crate::json::{json_of_bytes, json_of_text, JsonView};
use crate::monitor::{
    blank_line_at, blank_line_from, columns, get_request, gpus_from, http_body, local_addr,
    meminfo, memory_in, nvidia_gpus, nvidia_report, number_in, number_under, reading_of,
    rocm_counts, rocm_gpus, rocm_report, running_in, running_in_response, running_names,
    utf8_lossy, without_prefixes, FloatReading, GpuView,
};
use crate::runtime::GpuStatus;
use crate::text::{
    begins_with, decimal, decimal_reads_back, joined, lines_of, parsed_number, split_at_char,
    trimmed, without_return, words_of,
};
use crate::text_laws::{
    lines_come_one_by_one, split_takes_the_first_piece, split_undoes_join,
    words_are_what_stands_between,
};
use vstd::prelude::*;

verus! {

/// Whether a line of `/proc/meminfo` gives the figure of this name.
pub open spec fn gives(line: Seq<char>, name: Seq<char>) -> bool {
    words_of(line).len() > 0 && words_of(line)[0] == name
}

proof fn lemma_meminfo_without(a: Seq<Seq<char>>, line: Seq<char>, b: Seq<Seq<char>>)
    requires
        !gives(line, "MemTotal:"@),
        !gives(line, "MemAvailable:"@),
    ensures
        meminfo(a + seq![line] + b) == meminfo(a + b),
    decreases b.len(),
{
    let all = a + seq![line] + b;
    if b.len() == 0 {
        assert(all =~= a.push(line));
        assert(all.drop_last() =~= a);
        assert(a + b =~= a);
    } else {
        lemma_meminfo_without(a, line, b.drop_last());
        assert(all.drop_last() =~= a + seq![line] + b.drop_last());
        assert((a + b).drop_last() =~= a + b.drop_last());
        assert(all.last() == b.last() && (a + b).last() == b.last());
    }
}

/// A text whose last line is ended has its lines before those of what follows.
proof fn lemma_lines_concat(a: Seq<char>, b: Seq<char>)
    requires
        a.len() == 0 || a[a.len() - 1] == '\n',
    ensures
        lines_of(a + b) == lines_of(a) + lines_of(b),
    decreases a.len(),
{
    if a.len() == 0 {
        assert(a + b =~= b);
        assert(a =~= Seq::empty());
        lines_come_one_by_one(a, b);
        assert(lines_of(a) + lines_of(b) =~= lines_of(b));
    } else {
        let i = choose_line_end(a);
        let line = a.take(i);
        let rest = a.skip(i + 1);
        assert(a =~= line.push('\n') + rest);
        assert(a + b =~= line.push('\n') + (rest + b));
        assert(!line.contains('\n')) by {
            assert forall|k: int| 0 <= k < line.len() implies line[k] != '\n' by {
                assert(line[k] == a[k]);
            }
        }
        if rest.len() > 0 {
            assert(rest[rest.len() - 1] == a[a.len() - 1]);
        }
        lemma_lines_concat(rest, b);
        lemma_line_in_front(line, rest + b);
        lemma_line_in_front(line, rest);
        assert(lines_of(a + b) =~= lines_of(a) + lines_of(b));
    }
}

/// The place of the first line feed.
spec fn line_end(s: Seq<char>, i: int) -> int
    decreases s.len() - i,
{
    if i >= s.len() || s[i] == '\n' {
        i
    } else {
        line_end(s, i + 1)
    }
}

proof fn lemma_line_end(s: Seq<char>, i: int)
    requires
        0 <= i < s.len(),
        s[s.len() - 1] == '\n',
    ensures
        i <= line_end(s, i) < s.len(),
        s[line_end(s, i)] == '\n',
        forall|k: int| i <= k < line_end(s, i) ==> s[k] != '\n',
    decreases s.len() - i,
{
    if s[i] != '\n' {
        lemma_line_end(s, i + 1);
    }
}

proof fn choose_line_end(s: Seq<char>) -> (i: int)
    requires
        s.len() > 0,
        s[s.len() - 1] == '\n',
    ensures
        0 <= i < s.len(),
        s[i] == '\n',
        forall|k: int| 0 <= k < i ==> s[k] != '\n',
{
    lemma_line_end(s, 0);
    line_end(s, 0)
}

/// A line in front of a text, with one carriage return less where it ends in one.
proof fn lemma_line_in_front(line: Seq<char>, rest: Seq<char>)
    requires
        !line.contains('\n'),
    ensures
        lines_of(line.push('\n') + rest) == seq![without_return(line)] + lines_of(rest),
{
    split_takes_the_first_piece(line, rest, '\n');
    split_is_never_empty(rest);
    let pieces = split_at_char(rest, '\n');
    let all = split_at_char(line.push('\n') + rest, '\n');
    assert(all.last() == pieces.last());
    assert(all.drop_last() =~= seq![line] + pieces.drop_last());
    let f = |p: Seq<char>| without_return(p);
    assert(all.drop_last().map_values(f) =~= seq![without_return(line)]
        + pieces.drop_last().map_values(f));
    assert(lines_of(line.push('\n') + rest) =~= seq![without_return(line)] + lines_of(rest));
}

proof fn split_is_never_empty(s: Seq<char>)
    ensures
        split_at_char(s, '\n').len() > 0,
    decreases s.len(),
{
    if s.len() > 0 {
        split_is_never_empty(s.drop_last());
    }
}

proof fn lemma_words_without_return(line: Seq<char>)
    ensures
        words_of(without_return(line)) == words_of(line),
{
    if line.len() > 0 && line.last() == '\r' {
        let core = line.drop_last();
        words_are_what_stands_between(core, '\r', Seq::empty());
        assert(core.push('\r') + Seq::<char>::empty() =~= line);
        assert(words_of(core) + words_of(Seq::<char>::empty()) =~= words_of(core));
    }
}

/// A line of `/proc/meminfo` that gives neither the total nor the available memory
/// makes no difference: without it the memory is the same.
pub proof fn other_meminfo_lines_do_not_count(a: Seq<char>, line: Seq<char>, b: Seq<char>)
    requires
        a.len() == 0 || a[a.len() - 1] == '\n',
        !line.contains('\n'),
        !gives(line, "MemTotal:"@),
        !gives(line, "MemAvailable:"@),
    ensures
        memory_in(a + line.push('\n') + b) == memory_in(a + b),
{
    lemma_lines_concat(a, line.push('\n') + b);
    lemma_lines_concat(a, b);
    lemma_line_in_front(line, b);
    lemma_words_without_return(line);
    assert(a + line.push('\n') + b =~= a + (line.push('\n') + b));
    let first = without_return(line);
    assert(lines_of(a) + (seq![first] + lines_of(b)) =~= lines_of(a) + seq![first] + lines_of(b));
    lemma_meminfo_without(lines_of(a), first, lines_of(b));
}

proof fn lemma_two_figures(lines: Seq<Seq<char>>, i: int, t: nat, j: int, a: nat, n: int)
    requires
        0 <= n <= lines.len(),
        "MemTotal:"@ != "MemAvailable:"@,
        t <= u64::MAX,
        a <= u64::MAX,
        0 <= i < lines.len(),
        0 <= j < lines.len(),
        words_of(lines[i]).len() > 1,
        words_of(lines[j]).len() > 1,
        words_of(lines[i])[1] == decimal(t),
        words_of(lines[j])[1] == decimal(a),
        forall|k: int|
            0 <= k < lines.len() ==> (gives(#[trigger] lines[k], "MemTotal:"@) <==> k == i),
        forall|k: int|
            0 <= k < lines.len() ==> (gives(#[trigger] lines[k], "MemAvailable:"@) <==> k == j),
    ensures
        meminfo(lines.take(n)) == (if i < n {
            t
        } else {
            0
        }, if j < n {
            a
        } else {
            0
        }),
    decreases n,
{
    if n > 0 {
        lemma_two_figures(lines, i, t, j, a, n - 1);
        assert(lines.take(n).drop_last() =~= lines.take(n - 1));
        assert(lines.take(n).last() == lines[n - 1]);
        assert(gives(lines[n - 1], "MemTotal:"@) <==> n - 1 == i);
        assert(gives(lines[n - 1], "MemAvailable:"@) <==> n - 1 == j);
        decimal_reads_back(t, u64::MAX as nat);
        decimal_reads_back(a, u64::MAX as nat);
    }
}

/// Where one line gives the total memory and one the available memory, in kibibytes,
/// the memory is those figures in mebibytes, the used memory being what of the total
/// is not available; whatever the other lines are.
pub proof fn memory_is_total_less_available(text: Seq<char>, i: int, t: nat, j: int, a: nat)
    requires
        0 <= i < lines_of(text).len(),
        0 <= j < lines_of(text).len(),
        0 < t <= u64::MAX,
        a <= u64::MAX,
        words_of(lines_of(text)[i]).len() > 1,
        words_of(lines_of(text)[j]).len() > 1,
        words_of(lines_of(text)[i])[1] == decimal(t),
        words_of(lines_of(text)[j])[1] == decimal(a),
        forall|k: int|
            0 <= k < lines_of(text).len() ==> (gives(#[trigger] lines_of(text)[k], "MemTotal:"@)
                <==> k == i),
        forall|k: int|
            0 <= k < lines_of(text).len() ==> (gives(#[trigger] lines_of(text)[k], "MemAvailable:"@)
                <==> k == j),
    ensures
        memory_in(text) is Some,
        memory_in(text)->0.total_mb == t / 1024,
        a <= t ==> memory_in(text)->0.used_mb == (t - a) / 1024,
        a > t ==> memory_in(text)->0.used_mb == 0,
{
    reveal_strlit("MemTotal:");
    reveal_strlit("MemAvailable:");
    assert("MemTotal:"@.len() != "MemAvailable:"@.len());
    let lines = lines_of(text);
    lemma_two_figures(lines, i, t, j, a, lines.len() as int);
    assert(lines.take(lines.len() as int) =~= lines);
}

/// Whether a line gives this figure: the number behind its name, or zero where none
/// stands there.
pub open spec fn gives_figure(line: Seq<char>, n: nat) -> bool {
    let words = words_of(line);
    if words.len() > 1 && parsed_number(words[1], u64::MAX as nat) is Some {
        parsed_number(words[1], u64::MAX as nat) == Some(n)
    } else {
        n == 0
    }
}

/// Whether a figure is that of the last line that gives it, or zero where no line
/// does.
pub open spec fn is_last_figure(lines: Seq<Seq<char>>, name: Seq<char>, n: nat) -> bool {
    ||| n == 0 && forall|k: int| 0 <= k < lines.len() ==> !gives(#[trigger] lines[k], name)
    ||| exists|i: int|
        0 <= i < lines.len() && gives(#[trigger] lines[i], name) && gives_figure(lines[i], n)
            && forall|k: int| i < k < lines.len() ==> !gives(#[trigger] lines[k], name)
}

proof fn lemma_last_figure_before(lines: Seq<Seq<char>>, name: Seq<char>, n: nat)
    requires
        lines.len() > 0,
        is_last_figure(lines, name, n),
    ensures
        gives(lines.last(), name) ==> gives_figure(lines.last(), n),
        !gives(lines.last(), name) ==> is_last_figure(lines.drop_last(), name, n),
{
    let shorter = lines.drop_last();
    let last = lines.len() - 1;
    if forall|k: int| 0 <= k < lines.len() ==> !gives(#[trigger] lines[k], name) {
        assert(!gives(lines[last], name));
        assert forall|k: int| 0 <= k < shorter.len() implies !gives(#[trigger] shorter[k], name) by {
            assert(shorter[k] == lines[k]);
        }
    } else {
        let i = choose|i: int|
            0 <= i < lines.len() && gives(#[trigger] lines[i], name) && gives_figure(lines[i], n)
                && forall|k: int| i < k < lines.len() ==> !gives(#[trigger] lines[k], name);
        if i < last {
            assert(!gives(lines[last], name));
            assert(shorter[i] == lines[i]);
            assert forall|k: int| i < k < shorter.len() implies !gives(
                #[trigger] shorter[k],
                name,
            ) by {
                assert(shorter[k] == lines[k]);
            }
        }
    }
}

proof fn lemma_last_figures(lines: Seq<Seq<char>>, t: nat, a: nat)
    requires
        "MemTotal:"@ != "MemAvailable:"@,
        is_last_figure(lines, "MemTotal:"@, t),
        is_last_figure(lines, "MemAvailable:"@, a),
    ensures
        meminfo(lines).0 == t,
        meminfo(lines).1 == a,
    decreases lines.len(),
{
    if lines.len() > 0 {
        let last = lines.last();
        lemma_last_figure_before(lines, "MemTotal:"@, t);
        lemma_last_figure_before(lines, "MemAvailable:"@, a);
        let shorter = lines.drop_last();
        let (t0, a0) = meminfo(shorter);
        lemma_some_last_figure(shorter, "MemTotal:"@);
        lemma_some_last_figure(shorter, "MemAvailable:"@);
        let t1 = choose|n: nat| is_last_figure(shorter, "MemTotal:"@, n);
        let a1 = choose|n: nat| is_last_figure(shorter, "MemAvailable:"@, n);
        if gives(last, "MemTotal:"@) {
            lemma_last_figures(shorter, t1, a);
        } else if gives(last, "MemAvailable:"@) {
            lemma_last_figures(shorter, t, a1);
        } else {
            lemma_last_figures(shorter, t, a);
        }
    }
}

proof fn lemma_some_last_figure(lines: Seq<Seq<char>>, name: Seq<char>)
    ensures
        exists|n: nat| is_last_figure(lines, name, n),
    decreases lines.len(),
{
    if lines.len() == 0 {
        assert(is_last_figure(lines, name, 0));
    } else {
        let last = lines.len() - 1;
        let words = words_of(lines[last]);
        if gives(lines[last], name) {
            let n = match parsed_number(words[1], u64::MAX as nat) {
                Some(n) => if words.len() > 1 {
                    n
                } else {
                    0
                },
                None => 0,
            };
            assert(gives_figure(lines[last], n));
            assert(is_last_figure(lines, name, n));
        } else {
            let shorter = lines.drop_last();
            lemma_some_last_figure(shorter, name);
            let n = choose|n: nat| is_last_figure(shorter, name, n);
            if forall|k: int| 0 <= k < shorter.len() ==> !gives(#[trigger] shorter[k], name) {
                assert(n == 0);
                assert forall|k: int| 0 <= k < lines.len() implies !gives(
                    #[trigger] lines[k],
                    name,
                ) by {
                    if k < last {
                        assert(shorter[k] == lines[k]);
                    }
                }
            } else {
                let i = choose|i: int|
                    0 <= i < shorter.len() && gives(#[trigger] shorter[i], name) && gives_figure(
                        shorter[i],
                        n,
                    ) && forall|k: int| i < k < shorter.len() ==> !gives(#[trigger] shorter[k], name);
                assert(lines[i] == shorter[i]);
                assert forall|k: int| i < k < lines.len() implies !gives(
                    #[trigger] lines[k],
                    name,
                ) by {
                    if k < last {
                        assert(shorter[k] == lines[k]);
                    }
                }
            }
            assert(is_last_figure(lines, name, n));
        }
    }
}

/// Of several lines for one figure the last one counts, and a figure that no line
/// gives, or that is no number, is zero. Without a total nothing is known.
pub proof fn last_figures_count(text: Seq<char>, t: nat, a: nat)
    requires
        is_last_figure(lines_of(text), "MemTotal:"@, t),
        is_last_figure(lines_of(text), "MemAvailable:"@, a),
    ensures
        t == 0 ==> memory_in(text) is None,
        t > 0 ==> memory_in(text) is Some && memory_in(text)->0.total_mb == t / 1024
            && memory_in(text)->0.used_mb == (if a <= t {
            (t - a) / 1024
        } else {
            0
        }),
{
    reveal_strlit("MemTotal:");
    reveal_strlit("MemAvailable:");
    assert("MemTotal:"@.len() != "MemAvailable:"@.len());
    lemma_last_figures(lines_of(text), t, a);
    lemma_figure_fits(lines_of(text), "MemTotal:"@, t);
    lemma_figure_fits(lines_of(text), "MemAvailable:"@, a);
}

proof fn lemma_figure_fits(lines: Seq<Seq<char>>, name: Seq<char>, n: nat)
    requires
        is_last_figure(lines, name, n),
    ensures
        n <= u64::MAX,
{
    if n > 0 {
        let i = choose|i: int|
            0 <= i < lines.len() && gives(#[trigger] lines[i], name) && gives_figure(lines[i], n)
                && forall|k: int| i < k < lines.len() ==> !gives(#[trigger] lines[k], name);
        assert(gives_figure(lines[i], n));
    }
}

proof fn lemma_no_total(lines: Seq<Seq<char>>)
    requires
        forall|k: int| 0 <= k < lines.len() ==> !gives(#[trigger] lines[k], "MemTotal:"@),
    ensures
        meminfo(lines).0 == 0,
    decreases lines.len(),
{
    if lines.len() > 0 {
        let shorter = lines.drop_last();
        assert forall|k: int| 0 <= k < shorter.len() implies !gives(
            #[trigger] shorter[k],
            "MemTotal:"@,
        ) by {
            assert(shorter[k] == lines[k]);
        }
        lemma_no_total(shorter);
        assert(!gives(lines[lines.len() - 1], "MemTotal:"@));
    }
}

/// Where no line gives the total memory, nothing is known of the memory.
pub proof fn memory_needs_a_total(text: Seq<char>)
    requires
        forall|k: int|
            0 <= k < lines_of(text).len() ==> !gives(#[trigger] lines_of(text)[k], "MemTotal:"@),
    ensures
        memory_in(text) is None,
{
    lemma_no_total(lines_of(text));
}

/// The member with a key is the first one that has it.
pub proof fn member_is_the_first_with_its_key(
    members: Seq<(Seq<char>, JsonView)>,
    key: Seq<char>,
    i: int,
)
    requires
        0 <= i <= members.len(),
        forall|k: int| 0 <= k < i ==> (#[trigger] members[k]).0 != key,
        i < members.len() ==> members[i].0 == key,
    ensures
        JsonView::Object(members).member(key) == if i < members.len() {
            Some(members[i].1)
        } else {
            None
        },
    decreases members.len(),
{
    if members.len() > 0 && i > 0 {
        assert(members[0].0 != key);
        let rest = members.drop_first();
        assert forall|k: int| 0 <= k < i - 1 implies (#[trigger] rest[k]).0 != key by {
            assert(rest[k] == members[k + 1]);
        }
        if i < members.len() {
            assert(rest[i - 1] == members[i]);
        }
        member_is_the_first_with_its_key(rest, key, i - 1);
    }
}

/// A model that runs is listed by the text of `model`, whatever other members its
/// item has; an item without `model` is listed by the text of `name`. An item that
/// has neither, or no text there, is passed over.
pub proof fn running_item_is_listed_by_its_model(item: JsonView)
    ensures
        item.member("model"@) matches Some(JsonView::Text(s)) ==> running_in(
            JsonView::Array(seq![item]),
        ) == seq![s],
        item.member("model"@) is None ==> (item.member("name"@) matches Some(JsonView::Text(s))
            ==> running_in(JsonView::Array(seq![item])) == seq![s]),
        !(item.member("model"@) matches Some(JsonView::Text(_))) && !(item.member("model"@) is None
            && item.member("name"@) matches Some(JsonView::Text(_))) ==> running_in(
            JsonView::Array(seq![item]),
        ) == Seq::<Seq<char>>::empty(),
{
    let items = seq![item];
    assert(items.drop_last() =~= Seq::<JsonView>::empty());
    assert(running_names(items.drop_last()) =~= Seq::<Seq<char>>::empty());
    assert(JsonView::Array(items).member("running"@) is None);
    let names = running_in(JsonView::Array(items));
    assert(names =~= running_names(items));
    assert(items.last() == item);
    reveal_with_fuel(running_names, 2);
    if let Some(JsonView::Text(s)) = item.member("model"@) {
        assert(names =~= seq![s]);
    }
    if item.member("model"@) is None {
        if let Some(JsonView::Text(s)) = item.member("name"@) {
            assert(names =~= seq![s]);
        }
    }
}

proof fn lemma_running_concat(a: Seq<JsonView>, b: Seq<JsonView>)
    ensures
        running_names(a + b) == running_names(a) + running_names(b),
    decreases b.len(),
{
    if b.len() == 0 {
        assert(a + b =~= a);
        assert(running_names(a) + running_names(b) =~= running_names(a));
    } else {
        lemma_running_concat(a, b.drop_last());
        assert((a + b).drop_last() =~= a + b.drop_last());
        assert((a + b).last() == b.last());
        assert(running_names(a + b) =~= running_names(a) + running_names(b));
    }
}

/// The models that run are listed item by item, in order; the items are those of the
/// member `running` where it is an array, whatever other members the reply has, or
/// the reply itself. Any other reply lists none.
pub proof fn running_models_are_listed_in_order(a: Seq<JsonView>, b: Seq<JsonView>, reply: JsonView)
    ensures
        running_in(JsonView::Array(a + b)) == running_in(JsonView::Array(a)) + running_in(
            JsonView::Array(b),
        ),
        running_in(JsonView::Array(Seq::empty())) == Seq::<Seq<char>>::empty(),
        reply.member("running"@) == Some(JsonView::Array(a)) ==> running_in(reply) == running_in(
            JsonView::Array(a),
        ),
        !(reply is Array) && !(reply.member("running"@) matches Some(JsonView::Array(_)))
            ==> running_in(reply) == Seq::<Seq<char>>::empty(),
{
    lemma_running_concat(a, b);
    assert(JsonView::Array(a + b).member("running"@) is None);
    assert(JsonView::Array(a).member("running"@) is None);
    assert(JsonView::Array(b).member("running"@) is None);
    let none = Seq::<JsonView>::empty();
    assert(JsonView::Array(none).member("running"@) is None);
    assert(running_names(none) =~= Seq::<Seq<char>>::empty());
}

proof fn lemma_blank_line_from(s: Seq<char>, from: int, head: int)
    requires
        0 <= from <= head <= s.len(),
        forall|i: int| from <= i < head ==> !#[trigger] blank_line_at(s, i),
        head == s.len() || blank_line_at(s, head),
    ensures
        blank_line_from(s, from) == head,
    decreases head - from,
{
    if from < head {
        assert(!blank_line_at(s, from));
        lemma_blank_line_from(s, from + 1, head);
    }
}

/// The blank line that ends the head of an HTTP message.
pub open spec fn head_end() -> Seq<char> {
    seq!['\r', '\n', '\r', '\n']
}

/// The body of a response is all that follows its head and the first blank line; a
/// response without a blank line has none.
pub proof fn body_is_all_behind_the_head(head: Seq<char>, body: Seq<char>)
    requires
        forall|i: int|
            0 <= i < head.len() ==> (#[trigger] (head + head_end()).subrange(i, i + 4))
                != head_end(),
    ensures
        http_body(head + head_end() + body) == Some(body),
        http_body(head) is None,
{
    let s = head + head_end() + body;
    let n = head.len() as int;
    assert forall|i: int| 0 <= i < n implies !#[trigger] blank_line_at(s, i) by {
        let part = (head + head_end()).subrange(i, i + 4);
        assert(part != head_end());
        if blank_line_at(s, i) {
            assert(part =~= head_end());
        }
    }
    assert forall|i: int| 0 <= i < n implies !#[trigger] blank_line_at(head, i) by {
        assert((head + head_end()).subrange(i, i + 4) != head_end());
        if blank_line_at(head, i) {
            assert((head + head_end()).subrange(i, i + 4) =~= head_end());
        }
    }
    assert(blank_line_at(s, n));
    lemma_blank_line_from(s, 0, n);
    lemma_blank_line_from(head, 0, n);
    assert(s.skip(n + 4) =~= body);
}

/// A response without a blank line has no body.
pub proof fn no_body_without_a_blank_line(s: Seq<char>)
    requires
        forall|i: int|
            0 <= i && i + 4 <= s.len() ==> (#[trigger] s.subrange(i, i + 4)) != head_end(),
    ensures
        http_body(s) is None,
{
    assert forall|i: int| 0 <= i < s.len() implies !#[trigger] blank_line_at(s, i) by {
        if blank_line_at(s, i) {
            assert(s.subrange(i, i + 4) =~= head_end());
        }
    }
    lemma_blank_line_from(s, 0, s.len() as int);
}

/// The models that a response lists are those of the JSON in its body.
pub proof fn response_lists_what_its_body_lists(
    bytes: Seq<u8>,
    head: Seq<char>,
    body: Seq<char>,
)
    requires
        utf8_lossy(bytes) == head + head_end() + body,
        forall|i: int|
            0 <= i < head.len() ==> (#[trigger] (head + head_end()).subrange(i, i + 4))
                != head_end(),
    ensures
        json_of_text(trimmed(body)) matches Some(reply) ==> running_in_response(bytes)
            == running_in(reply),
        json_of_text(trimmed(body)) is None ==> running_in_response(bytes)
            == Seq::<Seq<char>>::empty(),
{
    body_is_all_behind_the_head(head, body);
}

/// An address that leaves the host open is taken on the loopback address, with the
/// same port; every other address is taken as it is.
pub proof fn open_hosts_become_loopback(port: Seq<char>, addr: Seq<char>)
    ensures
        local_addr(":"@ + port) == "127.0.0.1:"@ + port,
        local_addr("0.0.0.0:"@ + port) == "127.0.0.1:"@ + port,
        !":"@.is_prefix_of(addr) && !"0.0.0.0:"@.is_prefix_of(addr) ==> local_addr(addr) == addr,
{
    reveal_strlit(":");
    reveal_strlit("0.0.0.0:");
    reveal_strlit("127.0.0.1:");
    reveal_strlit("127.0.0.1");
    let a = ":"@ + port;
    assert(a.subrange(0, 1) =~= ":"@);
    assert(a.skip(1) =~= port);
    let b = "0.0.0.0:"@ + port;
    assert(b.subrange(0, 8) =~= "0.0.0.0:"@);
    assert(!begins_with(b, ":"@)) by {
        if begins_with(b, ":"@) {
            assert(b.subrange(0, 1)[0] == ":"@[0]);
        }
    }
    assert("127.0.0.1"@ + b.skip(7) =~= "127.0.0.1:"@ + port);
}

/// A request is the method with the path, the headers, and a blank line, as they
/// stand here.
pub proof fn request_is_laid_out(addr: Seq<char>, path: Seq<char>)
    ensures
        get_request(addr, path) == "GET "@ + path + " HTTP/1.0\r\nHost: "@ + addr
            + "\r\nAccept: application/json\r\nConnection: close\r\n\r\n"@,
{
}

/// A request is four lines and a blank one: what is asked for, of whom, in what
/// form, and that the connection is to be closed. Nothing follows them.
#[verifier::rlimit(40)]
pub proof fn request_asks_for_the_path(addr: Seq<char>, path: Seq<char>)
    requires
        !addr.contains('\n'),
        !path.contains('\n'),
        addr.len() == 0 || addr[addr.len() - 1] != '\r',
    ensures
        lines_of(get_request(addr, path)) == seq![
            "GET "@ + path + " HTTP/1.0"@,
            "Host: "@ + addr,
            "Accept: application/json"@,
            "Connection: close"@,
            Seq::<char>::empty(),
        ],
{
    reveal_strlit("GET ");
    reveal_strlit(" HTTP/1.0\r\nHost: ");
    reveal_strlit("\r\nAccept: application/json\r\nConnection: close\r\n\r\n");
    reveal_strlit(" HTTP/1.0");
    reveal_strlit("Host: ");
    reveal_strlit("Accept: application/json");
    reveal_strlit("Connection: close");
    let l0 = "GET "@ + path + " HTTP/1.0"@;
    let l1 = "Host: "@ + addr;
    let l2 = "Accept: application/json"@;
    let l3 = "Connection: close"@;
    let l4 = Seq::<char>::empty();
    assert(!l0.contains('\n')) by {
        assert forall|i: int| 0 <= i < l0.len() implies l0[i] != '\n' by {
            if 4 <= i < 4 + path.len() {
                assert(path.contains(path[i - 4]));
            }
        }
    }
    assert(!l1.contains('\n')) by {
        assert forall|i: int| 0 <= i < l1.len() implies l1[i] != '\n' by {
            if 6 <= i {
                assert(addr.contains(addr[i - 6]));
            }
        }
    }
    assert(l1[l1.len() - 1] != '\r') by {
        if addr.len() == 0 {
            assert(l1 =~= "Host: "@);
        } else {
            assert(l1[l1.len() - 1] == addr[addr.len() - 1]);
        }
    }
    let e = seq!['\r', '\n'];
    let r4 = l4 + e;
    let r3 = l3 + e + r4;
    let r2 = l2 + e + r3;
    let r1 = l1 + e + r2;
    assert("\r\nAccept: application/json\r\nConnection: close\r\n\r\n"@ =~= e + r2);
    assert(" HTTP/1.0\r\nHost: "@ =~= " HTTP/1.0"@ + e + "Host: "@);
    assert(get_request(addr, path) =~= l0 + e + r1);
    lines_come_one_by_one(l4, Seq::empty());
    assert(l4.push('\r').push('\n') + Seq::<char>::empty() =~= r4);
    lines_come_one_by_one(l3, r4);
    assert(l3.push('\r').push('\n') + r4 =~= r3);
    lines_come_one_by_one(l2, r3);
    assert(l2.push('\r').push('\n') + r3 =~= r2);
    lines_come_one_by_one(l1, r2);
    assert(l1.push('\r').push('\n') + r2 =~= r1);
    lines_come_one_by_one(l0, r1);
    assert(l0.push('\r').push('\n') + r1 =~= l0 + e + r1);
    assert(lines_of(get_request(addr, path)) =~= seq![l0, l1, l2, l3, l4]);
}

/// The GPUs are NVIDIA's where there is one; else those of AMD, else none.
pub proof fn first_vendor_with_gpus_counts(
    nvidia: Option<Vec<GpuStatus>>,
    rocm: Option<Vec<GpuStatus>>,
)
    ensures
        nvidia matches Some(g) ==> (g@.len() > 0 ==> gpus_from(nvidia, rocm) == g@),
        !(nvidia matches Some(g) && g@.len() > 0) ==> (match rocm {
            Some(g) => gpus_from(nvidia, rocm) == g@,
            None => gpus_from(nvidia, rocm).len() == 0,
        }),
{
}

/// Each column of a line of `nvidia-smi` is one figure of the GPU, by its place:
/// index, name, total memory, used memory, utilization; further columns do not
/// count. A figure that is no number is zero, or unknown for the utilization.
pub proof fn nvidia_columns_are_figures(cols: Seq<Seq<char>>)
    requires
        cols.len() >= 5,
        forall|i: int| 0 <= i < cols.len() ==> !(#[trigger] cols[i]).contains(','),
    ensures
        nvidia_gpus(seq![joined(cols, seq![','])]).len() == 1,
        ({
            let g = nvidia_gpus(seq![joined(cols, seq![','])])[0];
            &&& g.vendor == "nvidia"@
            &&& g.name == trimmed(cols[1])
            &&& match parsed_number(trimmed(cols[0]), u32::MAX as nat) {
                Some(n) => g.index == n,
                None => g.index == 0,
            }
            &&& match parsed_number(trimmed(cols[2]), u64::MAX as nat) {
                Some(n) => g.memory_total_mb == n,
                None => g.memory_total_mb == 0,
            }
            &&& match parsed_number(trimmed(cols[3]), u64::MAX as nat) {
                Some(n) => g.memory_used_mb == n,
                None => g.memory_used_mb == 0,
            }
            &&& match parsed_number(trimmed(cols[4]), u32::MAX as nat) {
                Some(n) => g.utilization_pct is Some && g.utilization_pct->0 == n,
                None => g.utilization_pct is None,
            }
        }),
{
    let line = joined(cols, seq![',']);
    split_undoes_join(cols, ',');
    let read = columns(line);
    assert(read.len() == cols.len());
    assert(forall|i: int| 0 <= i < cols.len() ==> #[trigger] read[i] == trimmed(cols[i]));
    assert(seq![line].drop_last() =~= Seq::<Seq<char>>::empty());
    assert(nvidia_gpus(seq![line].drop_last()) =~= Seq::<GpuView>::empty());
    assert(seq![line].last() == line);
    reveal_with_fuel(nvidia_gpus, 2);
}

/// The GPUs of `nvidia-smi` are read line by line, in order; a line of fewer than
/// five columns makes no difference.
pub proof fn nvidia_lines_are_read_in_order(a: Seq<Seq<char>>, b: Seq<Seq<char>>)
    ensures
        nvidia_gpus(a + b) == nvidia_gpus(a) + nvidia_gpus(b),
        a.len() == 1 && split_at_char(a[0], ',').len() < 5 ==> nvidia_gpus(a).len() == 0,
    decreases b.len(),
{
    if a.len() == 1 {
        assert(a.drop_last() =~= Seq::<Seq<char>>::empty());
        assert(a.last() == a[0]);
        reveal_with_fuel(nvidia_gpus, 2);
        assert(columns(a[0]).len() == split_at_char(a[0], ',').len());
    }
    if b.len() == 0 {
        assert(a + b =~= a);
        assert(nvidia_gpus(a) + nvidia_gpus(b) =~= nvidia_gpus(a));
    } else {
        nvidia_lines_are_read_in_order(a, b.drop_last());
        assert((a + b).drop_last() =~= a + b.drop_last());
        assert((a + b).last() == b.last());
        assert(nvidia_gpus(a + b) =~= nvidia_gpus(a) + nvidia_gpus(b));
    }
}

/// The cards of `rocm-smi` are read member by member, in order; a member whose key
/// does not begin with `card` makes no difference.
pub proof fn rocm_members_are_read_in_order(
    a: Seq<(Seq<char>, JsonView)>,
    b: Seq<(Seq<char>, JsonView)>,
    readings: Seq<FloatReading>,
)
    ensures
        rocm_gpus(a + b, readings) == rocm_gpus(a, readings) + rocm_gpus(b, readings),
        a.len() == 1 ==> (rocm_gpus(a, readings).len() == if "card"@.is_prefix_of(a[0].0) {
            1nat
        } else {
            0
        }),
    decreases b.len(),
{
    if a.len() == 1 {
        assert(a.drop_last() =~= Seq::<(Seq<char>, JsonView)>::empty());
        assert(a.last() == a[0]);
        reveal_with_fuel(rocm_gpus, 2);
    }
    if b.len() == 0 {
        assert(a + b =~= a);
        assert(rocm_gpus(a, readings) + rocm_gpus(b, readings) =~= rocm_gpus(a, readings));
    } else {
        rocm_members_are_read_in_order(a, b.drop_last(), readings);
        assert((a + b).drop_last() =~= a + b.drop_last());
        assert((a + b).last() == b.last());
        assert(rocm_gpus(a + b, readings) =~= rocm_gpus(a, readings) + rocm_gpus(b, readings));
    }
}

/// What counts as the fraction that a text writes is its first reading.
pub proof fn reading_is_the_first_of_its_text(
    readings: Seq<FloatReading>,
    text: Seq<char>,
    i: int,
)
    requires
        0 <= i <= readings.len(),
        forall|k: int| 0 <= k < i ==> (#[trigger] readings[k]).text@ != text,
        i < readings.len() ==> readings[i].text@ == text,
    ensures
        reading_of(readings, text) == if i < readings.len() {
            readings[i].value
        } else {
            None
        },
    decreases readings.len(),
{
    if readings.len() > 0 && i > 0 {
        assert(readings[0].text@ != text);
        let rest = readings.drop_first();
        assert forall|k: int| 0 <= k < i - 1 implies (#[trigger] rest[k]).text@ != text by {
            assert(rest[k] == readings[k + 1]);
        }
        if i < readings.len() {
            assert(rest[i - 1] == readings[i]);
        }
        reading_is_the_first_of_its_text(rest, text, i - 1);
    }
}

/// Whether a value stands for a number: as an integer, as a text that writes one, or
/// as a text that was read as a fraction.
pub open spec fn stands_for(v: JsonView, readings: Seq<FloatReading>, n: u64) -> bool {
    ||| v == JsonView::Number(Some(n))
    ||| v matches JsonView::Text(s) && parsed_number(trimmed(s), u64::MAX as nat) == Some(n as nat)
    ||| v matches JsonView::Text(s) && parsed_number(trimmed(s), u64::MAX as nat) is None
        && reading_of(readings, trimmed(s)) == Some(n)
}

/// Whether a card has this number under a key.
pub open spec fn has_number(card: JsonView, key: Seq<char>, readings: Seq<FloatReading>, n: u64) -> bool {
    card.member(key) matches Some(v) && stands_for(v, readings, n)
}

/// Whether a card has no number under a key.
pub open spec fn has_none(card: JsonView, key: Seq<char>, readings: Seq<FloatReading>) -> bool {
    forall|n: u64| !#[trigger] has_number(card, key, readings, n)
}

proof fn lemma_number_at(card: JsonView, key: Seq<char>, readings: Seq<FloatReading>)
    ensures
        ({
            let here = match card.member(key) {
                Some(v) => number_in(v, readings),
                None => None,
            };
            match here {
                Some(n) => has_number(card, key, readings, n) && forall|k: u64|
                    #[trigger] has_number(card, key, readings, k) ==> k == n,
                None => has_none(card, key, readings),
            }
        }),
{
    if let Some(v) = card.member(key) {
        if let JsonView::Text(s) = v {
            assert(v == JsonView::Text(s));
        }
    }
}

proof fn lemma_two_keys(
    card: JsonView,
    first: Seq<char>,
    second: Seq<char>,
    readings: Seq<FloatReading>,
    n: u64,
)
    ensures
        has_number(card, first, readings, n) ==> number_under(card, seq![first, second], readings)
            == Some(n),
        has_none(card, first, readings) && has_number(card, second, readings, n) ==> number_under(
            card,
            seq![first, second],
            readings,
        ) == Some(n),
        has_none(card, first, readings) && has_none(card, second, readings) ==> number_under(
            card,
            seq![first, second],
            readings,
        ) is None,
        has_number(card, first, readings, n) ==> number_under(card, seq![first], readings) == Some(
            n,
        ),
        has_none(card, first, readings) ==> number_under(card, seq![first], readings) is None,
{
    lemma_number_at(card, first, readings);
    lemma_number_at(card, second, readings);
    let keys = seq![first, second];
    assert(keys.drop_first() =~= seq![second]);
    assert(seq![second].drop_first() =~= Seq::<Seq<char>>::empty());
    assert(seq![first].drop_first() =~= Seq::<Seq<char>>::empty());
    reveal_with_fuel(number_under, 3);
}

/// The figures of an AMD card are the numbers under its keys: memory in bytes under
/// the keys for total and used memory, the longer key before the shorter one, and
/// the utilization in percent. Memory without a number is zero, utilization unknown.
pub proof fn rocm_figures_stand_under_their_keys(
    key: Seq<char>,
    card: JsonView,
    readings: Seq<FloatReading>,
    n: u64,
)
    requires
        "card"@.is_prefix_of(key),
    ensures
        ({
            let gpus = rocm_gpus(seq![(key, card)], readings);
            let g = gpus[0];
            &&& gpus.len() == 1
            &&& g.vendor == "amd"@
            &&& has_number(card, "VRAM Total Memory (B)"@, readings, n) ==> g.memory_total_mb == n
                / 1048576
            &&& has_none(card, "VRAM Total Memory (B)"@, readings) && has_number(
                card,
                "VRAM Total Memory"@,
                readings,
                n,
            ) ==> g.memory_total_mb == n / 1048576
            &&& has_none(card, "VRAM Total Memory (B)"@, readings) && has_none(
                card,
                "VRAM Total Memory"@,
                readings,
            ) ==> g.memory_total_mb == 0
            &&& has_number(card, "VRAM Total Used Memory (B)"@, readings, n) ==> g.memory_used_mb
                == n / 1048576
            &&& has_none(card, "VRAM Total Used Memory (B)"@, readings) && has_number(
                card,
                "VRAM Total Used Memory"@,
                readings,
                n,
            ) ==> g.memory_used_mb == n / 1048576
            &&& has_none(card, "VRAM Total Used Memory (B)"@, readings) && has_none(
                card,
                "VRAM Total Used Memory"@,
                readings,
            ) ==> g.memory_used_mb == 0
            &&& has_number(card, "GPU use (%)"@, readings, n) ==> g.utilization_pct is Some
                && g.utilization_pct->0 == n % 0x1_0000_0000
            &&& has_none(card, "GPU use (%)"@, readings) ==> g.utilization_pct is None
        }),
{
    let one = seq![(key, card)];
    assert(one.drop_last() =~= Seq::<(Seq<char>, JsonView)>::empty());
    assert(one.last() == (key, card));
    reveal_with_fuel(rocm_gpus, 2);
    lemma_two_keys(card, "VRAM Total Memory (B)"@, "VRAM Total Memory"@, readings, n);
    lemma_two_keys(card, "VRAM Total Used Memory (B)"@, "VRAM Total Used Memory"@, readings, n);
    lemma_two_keys(card, "GPU use (%)"@, "GPU use (%)"@, readings, n);
}

/// An AMD card is called by its series, whatever other members it has, by its model
/// where it has no series, and by a general name where that is no text.
pub proof fn rocm_card_is_called_by_its_series(
    key: Seq<char>,
    card: JsonView,
    readings: Seq<FloatReading>,
)
    requires
        "card"@.is_prefix_of(key),
    ensures
        ({
            let g = rocm_gpus(seq![(key, card)], readings)[0];
            &&& card.member("Card series"@) matches Some(JsonView::Text(s)) ==> g.name == s
            &&& card.member("Card series"@) is None ==> (card.member("Card model"@) matches Some(
                JsonView::Text(s),
            ) ==> g.name == s)
            &&& !(card.member("Card series"@) matches Some(JsonView::Text(_))) && !(card.member(
                "Card series"@,
            ) is None && card.member("Card model"@) matches Some(JsonView::Text(_))) ==> g.name
                == "AMD GPU"@
        }),
{
    let one = seq![(key, card)];
    assert(one.drop_last() =~= Seq::<(Seq<char>, JsonView)>::empty());
    assert(one.last() == (key, card));
    reveal_with_fuel(rocm_gpus, 2);
}

/// The index of an AMD card is the number behind `card` in its key, or zero where
/// none stands there.
pub proof fn rocm_index_stands_in_the_key(
    rest: Seq<char>,
    card: JsonView,
    readings: Seq<FloatReading>,
)
    requires
        !"card"@.is_prefix_of(rest),
    ensures
        ({
            let g = rocm_gpus(seq![("card"@ + rest, card)], readings)[0];
            match parsed_number(rest, u32::MAX as nat) {
                Some(n) => g.index == n,
                None => g.index == 0,
            }
        }),
{
    reveal_strlit("card");
    let key = "card"@ + rest;
    let one = seq![(key, card)];
    assert(one.drop_last() =~= Seq::<(Seq<char>, JsonView)>::empty());
    assert(one.last() == (key, card));
    reveal_with_fuel(rocm_gpus, 2);
    assert(key.subrange(0, 4) =~= "card"@);
    assert(key.skip(4) =~= rest);
    reveal_with_fuel(without_prefixes, 3);
    assert(without_prefixes(key, "card"@) == rest);
}

/// AMD's tool has to be asked exactly where what it reports makes a difference.
pub proof fn rocm_is_asked_where_it_decides(
    nvidia: Option<Vec<GpuStatus>>,
    a: Option<Vec<GpuStatus>>,
    b: Vec<GpuStatus>,
)
    ensures
        !rocm_counts(nvidia) ==> gpus_from(nvidia, a) == gpus_from(nvidia, None),
        rocm_counts(nvidia) ==> gpus_from(nvidia, Some(b)) == b@,
{
}

/// A run that failed reports nothing; what one that succeeded reports is what its
/// output says, which for `rocm-smi` has to be a JSON object.
pub proof fn only_successful_runs_report(
    bytes: Seq<u8>,
    readings: Seq<FloatReading>,
    members: Seq<(Seq<char>, JsonView)>,
)
    ensures
        nvidia_report(false, bytes) is None,
        nvidia_report(true, bytes) == Some(nvidia_gpus(lines_of(utf8_lossy(bytes)))),
        rocm_report(false, bytes, readings) is None,
        json_of_bytes(bytes) == Some(JsonView::Object(members)) ==> rocm_report(
            true,
            bytes,
            readings,
        ) == Some(rocm_gpus(members, readings)),
        !(json_of_bytes(bytes) matches Some(JsonView::Object(_))) ==> rocm_report(
            true,
            bytes,
            readings,
        ) is None,
{
}

/// A further `card` in front of a key makes no difference to the index.
pub proof fn rocm_index_ignores_repeated_prefixes(
    key: Seq<char>,
    card: JsonView,
    readings: Seq<FloatReading>,
)
    requires
        "card"@.is_prefix_of(key),
    ensures
        rocm_gpus(seq![("card"@ + key, card)], readings)[0].index == rocm_gpus(
            seq![(key, card)],
            readings,
        )[0].index,
{
    reveal_strlit("card");
    let longer = "card"@ + key;
    let one = seq![(key, card)];
    let two = seq![(longer, card)];
    let none = Seq::<(Seq<char>, JsonView)>::empty();
    assert(one.drop_last() =~= none && two.drop_last() =~= none);
    assert(one.last() == (key, card) && two.last() == (longer, card));
    reveal_with_fuel(rocm_gpus, 2);
    assert(longer.subrange(0, 4) =~= "card"@);
    assert(longer.skip(4) =~= key);
    assert(without_prefixes(longer, "card"@) == without_prefixes(key, "card"@));
}

} // verus!
