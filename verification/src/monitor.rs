//! Resource sampling: what the outputs of `nvidia-smi` and `rocm-smi`,
//! `/proc/meminfo` and llama-swap's `/running` endpoint say.

use crate::daemon::{log, log_line};
use crate::json::{json_of_bytes, json_of_text, parse_bytes, parse_text, Json, JsonView};
use crate::runtime::{GpuStatus, MemStatus};
use crate::text::{
    begins_with, chars_of, lines, lines_of, parse_u32, parse_u64, parsed_number, same_text,
    skip_chars, split_at_char, split_char, starts_with, string_of, texts, trim, trimmed, words,
    words_of,
};
use vstd::prelude::*;

verus! {

/// What a program that ran to its end left behind.
pub struct ProgramOutput {
    /// Whether it reported success.
    pub success: bool,
    pub stdout: Vec<u8>,
}

/// The text that `String::from_utf8_lossy` reads in bytes.
pub uninterp spec fn utf8_lossy(bytes: Seq<u8>) -> Seq<char>;

/// `String::from_utf8_lossy` reads bytes as UTF-8, with a replacement character
/// for what is none; bytes that are valid UTF-8 are read as what they encode.
#[verifier::external_body]
pub(crate) fn read_utf8_lossy(bytes: &[u8]) -> (r: String)
    ensures
        r@ == utf8_lossy(bytes@),
        vstd::utf8::valid_utf8(bytes@) ==> r@ == vstd::utf8::decode_utf8(bytes@),
{
    String::from_utf8_lossy(bytes).into_owned()
}

/// What a GPU reports, as mathematics.
pub struct GpuView {
    pub index: u32,
    pub name: Seq<char>,
    pub vendor: Seq<char>,
    pub memory_total_mb: u64,
    pub memory_used_mb: u64,
    pub utilization_pct: Option<u32>,
}

impl View for GpuStatus {
    type V = GpuView;

    open spec fn view(&self) -> GpuView {
        GpuView {
            index: self.index,
            name: self.name@,
            vendor: self.vendor@,
            memory_total_mb: self.memory_total_mb,
            memory_used_mb: self.memory_used_mb,
            utilization_pct: self.utilization_pct,
        }
    }
}

/// What a row of GPUs reports.
pub open spec fn gpu_views(v: Seq<GpuStatus>) -> Seq<GpuView> {
    v.map_values(|g: GpuStatus| g@)
}

/// What an optional row of GPUs reports.
pub open spec fn opt_gpu_views(v: Option<Vec<GpuStatus>>) -> Option<Seq<GpuView>> {
    match v {
        Some(v) => Some(gpu_views(v@)),
        None => None,
    }
}

fn push_gpu(v: &mut Vec<GpuStatus>, g: GpuStatus)
    ensures
        gpu_views(final(v)@) == gpu_views(old(v)@).push(g@),
{
    let ghost before = gpu_views(v@);
    v.push(g);
    assert(gpu_views(v@) =~= before.push(g@));
}

/// Collect GPU stats, NVIDIA first, then AMD ROCm; none on a CPU. Each argument is
/// what a vendor's tool reported, `None` where it could not be asked.
pub fn sample_gpus(nvidia: Option<Vec<GpuStatus>>, rocm: Option<Vec<GpuStatus>>) -> (r: Vec<
    GpuStatus,
>)
    ensures
        r@ == gpus_from(nvidia, rocm),
{
    if let Some(g) = nvidia {
        if !g.is_empty() {
            return g;
        }
    }
    if let Some(g) = rocm {
        if !g.is_empty() {
            return g;
        }
    }
    Vec::new()
}

/// NVIDIA's GPUs where there are any, else AMD's, else none.
pub open spec fn gpus_from(
    nvidia: Option<Vec<GpuStatus>>,
    rocm: Option<Vec<GpuStatus>>,
) -> Seq<GpuStatus> {
    if nvidia is Some && nvidia->0@.len() > 0 {
        nvidia->0@
    } else if rocm is Some {
        rocm->0@
    } else {
        Seq::empty()
    }
}

/// Whether what AMD's tool reports makes a difference.
pub open spec fn rocm_counts(nvidia: Option<Vec<GpuStatus>>) -> bool {
    match nvidia {
        Some(g) => g@.len() == 0,
        None => true,
    }
}

/// Whether AMD's tool has to be asked after NVIDIA's was.
pub fn wants_rocm(nvidia: &Option<Vec<GpuStatus>>) -> (r: bool)
    ensures
        r == rocm_counts(*nvidia),
        r == !(nvidia is Some && nvidia->0@.len() > 0),
{
    match nvidia {
        Some(g) => g.is_empty(),
        None => true,
    }
}

/// Where AMD's tool need not be asked, what it would report makes no difference.
pub proof fn rocm_is_asked_where_it_counts(
    nvidia: Option<Vec<GpuStatus>>,
    rocm: Option<Vec<GpuStatus>>,
)
    requires
        nvidia is Some && nvidia->0@.len() > 0,
    ensures
        gpus_from(nvidia, rocm) == gpus_from(nvidia, None),
{
}

/// A number in a column, or zero where there is none.
pub open spec fn number_or_zero(s: Seq<char>, max: nat) -> nat {
    match parsed_number(s, max) {
        Some(n) => n,
        None => 0,
    }
}

/// The columns of a line, without the whitespace around them.
pub open spec fn columns(line: Seq<char>) -> Seq<Seq<char>> {
    split_at_char(line, ',').map_values(|c: Seq<char>| trimmed(c))
}

/// The GPU that a line of `nvidia-smi` describes, where it has the five columns
/// index, name, total memory, used memory and utilization.
pub open spec fn nvidia_gpu(line: Seq<char>) -> Option<GpuView> {
    let cols = columns(line);
    if cols.len() < 5 {
        None
    } else {
        Some(
            GpuView {
                index: number_or_zero(cols[0], u32::MAX as nat) as u32,
                name: cols[1],
                vendor: "nvidia"@,
                memory_total_mb: number_or_zero(cols[2], u64::MAX as nat) as u64,
                memory_used_mb: number_or_zero(cols[3], u64::MAX as nat) as u64,
                utilization_pct: match parsed_number(cols[4], u32::MAX as nat) {
                    Some(n) => Some(n as u32),
                    None => None,
                },
            },
        )
    }
}

/// The GPUs that the lines describe; lines that describe none are passed over.
pub open spec fn nvidia_gpus(lines: Seq<Seq<char>>) -> Seq<GpuView>
    decreases lines.len(),
{
    if lines.len() == 0 {
        Seq::empty()
    } else {
        let before = nvidia_gpus(lines.drop_last());
        match nvidia_gpu(lines.last()) {
            Some(g) => before.push(g),
            None => before,
        }
    }
}

fn trim_all(v: &Vec<String>) -> (r: Vec<String>)
    ensures
        texts(r@) == texts(v@).map_values(|c: Seq<char>| trimmed(c)),
{
    let mut out: Vec<String> = Vec::new();
    let mut i: usize = 0;
    while i < v.len()
        invariant
            i <= v@.len(),
            out@.len() == i,
            forall|k: int| 0 <= k < i ==> (#[trigger] out@[k])@ == trimmed(v@[k]@),
        decreases v@.len() - i,
    {
        out.push(trim(v[i].as_str()));
        i += 1;
    }
    assert(texts(out@) =~= texts(v@).map_values(|c: Seq<char>| trimmed(c)));
    out
}

/// The GPUs that the text of `nvidia-smi` describes.
pub fn parse_nvidia(text: &str) -> (r: Vec<GpuStatus>)
    ensures
        gpu_views(r@) == nvidia_gpus(lines_of(text@)),
{
    let rows = lines(text);
    let ghost all = lines_of(text@);
    let mut gpus: Vec<GpuStatus> = Vec::new();
    let mut i: usize = 0;
    assert(gpu_views(gpus@) =~= nvidia_gpus(all.take(0)));
    while i < rows.len()
        invariant
            i <= rows@.len(),
            texts(rows@) == all,
            gpu_views(gpus@) == nvidia_gpus(all.take(i as int)),
        decreases rows@.len() - i,
    {
        assert(all.take(i + 1).drop_last() == all.take(i as int));
        assert(all[i as int] == rows@[i as int]@);
        let pieces = split_char(rows[i].as_str(), ',');
        let cols = trim_all(&pieces);
        assert(texts(cols@) == columns(all[i as int]));
        if cols.len() >= 5 {
            assert(forall|k: int|
                0 <= k < cols@.len() ==> columns(all[i as int])[k] == #[trigger] cols@[k]@) by {
                assert(forall|k: int|
                    0 <= k < cols@.len() ==> texts(cols@)[k] == #[trigger] cols@[k]@);
            }
            let g = GpuStatus {
                index: parse_u32(cols[0].as_str()).unwrap_or(0),
                name: cols[1].clone(),
                vendor: "nvidia".to_owned(),
                memory_total_mb: parse_u64(cols[2].as_str()).unwrap_or(0),
                memory_used_mb: parse_u64(cols[3].as_str()).unwrap_or(0),
                utilization_pct: parse_u32(cols[4].as_str()),
            };
            assert(Some(g@) == nvidia_gpu(all[i as int]));
            push_gpu(&mut gpus, g);
        }
        i += 1;
    }
    assert(all.take(all.len() as int) == all);
    gpus
}

/// The GPUs that the bytes of `nvidia-smi` report, of a run that succeeded.
pub open spec fn nvidia_report(success: bool, stdout: Seq<u8>) -> Option<Seq<GpuView>> {
    if success {
        Some(nvidia_gpus(lines_of(utf8_lossy(stdout))))
    } else {
        None
    }
}

/// The GPUs that a run of `nvidia-smi` reports: none of a run that failed.
pub fn sample_nvidia(output: Option<&ProgramOutput>) -> (r: Option<Vec<GpuStatus>>)
    ensures
        output matches Some(out) ==> opt_gpu_views(r) == nvidia_report(out.success, out.stdout@),
        output is None ==> r is None,
        opt_gpu_views(r) == (match output {
            Some(out) => if out.success {
                Some(nvidia_gpus(lines_of(utf8_lossy(out.stdout@))))
            } else {
                None
            },
            None => None,
        }),
{
    match output {
        Some(out) => {
            if !out.success {
                return None;
            }
            let text = read_utf8_lossy(out.stdout.as_slice());
            Some(parse_nvidia(text.as_str()))
        },
        None => None,
    }
}

/// What reading a text as a decimal fraction gave: the number cut off to an
/// unsigned integer, or `None` where the text is no number.
pub struct FloatReading {
    pub text: String,
    pub value: Option<u64>,
}

/// The first reading of the text.
pub open spec fn reading_of(readings: Seq<FloatReading>, text: Seq<char>) -> Option<u64>
    decreases readings.len(),
{
    if readings.len() == 0 {
        None
    } else if readings[0].text@ == text {
        readings[0].value
    } else {
        reading_of(readings.drop_first(), text)
    }
}

fn find_reading(readings: &Vec<FloatReading>, text: &str) -> (r: Option<u64>)
    ensures
        r == reading_of(readings@, text@),
{
    let mut i: usize = 0;
    assert(readings@.skip(0) == readings@);
    while i < readings.len()
        invariant
            i <= readings@.len(),
            reading_of(readings@, text@) == reading_of(readings@.skip(i as int), text@),
        decreases readings@.len() - i,
    {
        let ghost rest = readings@.skip(i as int);
        if same_text(readings[i].text.as_str(), text) {
            return readings[i].value;
        }
        assert(rest.drop_first() == readings@.skip(i + 1));
        i += 1;
    }
    None
}

/// The number that a JSON value stands for: an integer, or a text that writes one
/// or, failing that, a decimal fraction.
pub open spec fn number_in(v: JsonView, readings: Seq<FloatReading>) -> Option<u64> {
    match v {
        JsonView::Number(n) => n,
        JsonView::Text(s) => match parsed_number(trimmed(s), u64::MAX as nat) {
            Some(n) => Some(n as u64),
            None => reading_of(readings, trimmed(s)),
        },
        _ => None,
    }
}

/// The number under the first of the keys that has one.
pub open spec fn number_under(
    card: JsonView,
    keys: Seq<Seq<char>>,
    readings: Seq<FloatReading>,
) -> Option<u64>
    decreases keys.len(),
{
    if keys.len() == 0 {
        None
    } else {
        let here = match card.member(keys[0]) {
            Some(v) => number_in(v, readings),
            None => None,
        };
        if here is Some {
            here
        } else {
            number_under(card, keys.drop_first(), readings)
        }
    }
}

/// What a row of string slices holds.
pub open spec fn slice_texts(v: Seq<&str>) -> Seq<Seq<char>> {
    v.map_values(|s: &str| s@)
}

/// The number under the first of the keys that has one.
pub fn find_number(card: &Json, keys: &Vec<&str>, readings: &Vec<FloatReading>) -> (r: Option<u64>)
    ensures
        r == number_under(card@, slice_texts(keys@), readings@),
{
    let ghost all = slice_texts(keys@);
    let mut i: usize = 0;
    assert(all.skip(0) == all);
    while i < keys.len()
        invariant
            i <= keys@.len(),
            all == slice_texts(keys@),
            number_under(card@, all, readings@) == number_under(
                card@,
                all.skip(i as int),
                readings@,
            ),
        decreases keys@.len() - i,
    {
        let ghost rest = all.skip(i as int);
        assert(rest[0] == keys@[i as int]@);
        let mut found: Option<u64> = None;
        if let Some(v) = card.get(keys[i]) {
            match v {
                Json::Number(n) => {
                    found = *n;
                },
                Json::Text(s) => {
                    let t = trim(s.as_str());
                    match parse_u64(t.as_str()) {
                        Some(n) => {
                            found = Some(n);
                        },
                        None => {
                            found = find_reading(readings, t.as_str());
                        },
                    }
                },
                _ => {},
            }
            assert(found == number_in(v@, readings@));
        }
        if found.is_some() {
            return found;
        }
        assert(rest.drop_first() == all.skip(i + 1));
        i += 1;
    }
    None
}

/// `s` without the prefix, as often as it begins with it.
pub open spec fn without_prefixes(s: Seq<char>, prefix: Seq<char>) -> Seq<char>
    decreases s.len(),
{
    if prefix.len() > 0 && begins_with(s, prefix) {
        without_prefixes(s.skip(prefix.len() as int), prefix)
    } else {
        s
    }
}

fn strip_card(s: &str) -> (r: String)
    ensures
        r@ == without_prefixes(s@, "card"@),
{
    let mut out = s.to_owned();
    proof {
        reveal_strlit("card");
        assert("card"@.len() == 4);
    }
    while starts_with(out.as_str(), "card")
        invariant
            "card"@.len() == 4,
            without_prefixes(out@, "card"@) == without_prefixes(s@, "card"@),
        decreases out@.len(),
    {
        out = skip_chars(out.as_str(), 4);
    }
    out
}

/// The keys of a card's total memory, in bytes.
pub open spec fn total_keys() -> Seq<Seq<char>> {
    seq!["VRAM Total Memory (B)"@, "VRAM Total Memory"@]
}

/// The keys of a card's used memory, in bytes.
pub open spec fn used_keys() -> Seq<Seq<char>> {
    seq!["VRAM Total Used Memory (B)"@, "VRAM Total Used Memory"@]
}

/// The keys of a card's utilization, in percent.
pub open spec fn use_keys() -> Seq<Seq<char>> {
    seq!["GPU use (%)"@]
}

/// A number of bytes in mebibytes, zero where there is none.
pub open spec fn mebibytes(bytes: Option<u64>) -> u64 {
    match bytes {
        Some(b) => b / 1_048_576,
        None => 0,
    }
}

/// The name of a card: its series, or its model where it has no series; where
/// what it has is no text, a general one.
pub open spec fn card_name(card: JsonView) -> Seq<char> {
    let label = match card.member("Card series"@) {
        Some(v) => Some(v),
        None => card.member("Card model"@),
    };
    match label {
        Some(JsonView::Text(s)) => s,
        _ => "AMD GPU"@,
    }
}

/// The GPU that a member of `rocm-smi`'s report describes, where its key begins
/// with `card`.
pub open spec fn rocm_gpu(
    member: (Seq<char>, JsonView),
    readings: Seq<FloatReading>,
) -> Option<GpuView> {
    let (key, card) = member;
    if !begins_with(key, "card"@) {
        None
    } else {
        Some(
            GpuView {
                index: number_or_zero(
                    without_prefixes(key, "card"@),
                    u32::MAX as nat,
                ) as u32,
                name: card_name(card),
                vendor: "amd"@,
                memory_total_mb: mebibytes(number_under(card, total_keys(), readings)),
                memory_used_mb: mebibytes(number_under(card, used_keys(), readings)),
                utilization_pct: match number_under(card, use_keys(), readings) {
                    Some(n) => Some((n % 0x1_0000_0000) as u32),
                    None => None,
                },
            },
        )
    }
}

/// The GPUs that the members of `rocm-smi`'s report describe, in order.
pub open spec fn rocm_gpus(
    members: Seq<(Seq<char>, JsonView)>,
    readings: Seq<FloatReading>,
) -> Seq<GpuView>
    decreases members.len(),
{
    if members.len() == 0 {
        Seq::empty()
    } else {
        let before = rocm_gpus(members.drop_last(), readings);
        match rocm_gpu(members.last(), readings) {
            Some(g) => before.push(g),
            None => before,
        }
    }
}

/// The low half of a number.
fn low_u32(v: u64) -> (r: u32)
    ensures
        r == (v % 0x1_0000_0000) as u32,
{
    (v % 0x1_0000_0000) as u32
}

fn card_keys() -> (r: (Vec<&'static str>, Vec<&'static str>, Vec<&'static str>))
    ensures
        slice_texts(r.0@) == total_keys(),
        slice_texts(r.1@) == used_keys(),
        slice_texts(r.2@) == use_keys(),
{
    let total = vec!["VRAM Total Memory (B)", "VRAM Total Memory"];
    let used = vec!["VRAM Total Used Memory (B)", "VRAM Total Used Memory"];
    let usage = vec!["GPU use (%)"];
    assert(slice_texts(total@) =~= total_keys());
    assert(slice_texts(used@) =~= used_keys());
    assert(slice_texts(usage@) =~= use_keys());
    (total, used, usage)
}

fn parse_card(key: &str, card: &Json, readings: &Vec<FloatReading>) -> (r: Option<GpuStatus>)
    ensures
        (match r {
            Some(g) => Some(g@),
            None => None,
        }) == rocm_gpu((key@, card@), readings@),
{
    if !starts_with(key, "card") {
        return None;
    }
    let (total_keys, used_keys, use_keys) = card_keys();
    let total = match find_number(card, &total_keys, readings) {
        Some(b) => b / 1_048_576,
        None => 0,
    };
    let used = match find_number(card, &used_keys, readings) {
        Some(b) => b / 1_048_576,
        None => 0,
    };
    let util = match find_number(card, &use_keys, readings) {
        Some(v) => Some(low_u32(v)),
        None => None,
    };
    let label = match card.get("Card series") {
        Some(v) => Some(v),
        None => card.get("Card model"),
    };
    let name = match label {
        Some(v) => match v.as_str() {
            Some(s) => s.clone(),
            None => "AMD GPU".to_owned(),
        },
        None => "AMD GPU".to_owned(),
    };
    assert(name@ == card_name(card@));
    Some(
        GpuStatus {
            index: parse_u32(strip_card(key).as_str()).unwrap_or(0),
            name,
            vendor: "amd".to_owned(),
            memory_total_mb: total,
            memory_used_mb: used,
            utilization_pct: util,
        },
    )
}

/// The GPUs that a report of `rocm-smi` describes, where it is an object. A text
/// that is no integer counts as the fraction that `readings` has for it.
pub fn parse_rocm(report: &Json, readings: &Vec<FloatReading>) -> (r: Option<Vec<GpuStatus>>)
    ensures
        opt_gpu_views(r) == (match report@ {
            JsonView::Object(members) => Some(rocm_gpus(members, readings@)),
            _ => None,
        }),
{
    match report {
        Json::Object(cards) => {
            let ghost members = report@->Object_0;
            let mut gpus: Vec<GpuStatus> = Vec::new();
            let mut i: usize = 0;
            assert(gpu_views(gpus@) =~= rocm_gpus(members.take(0), readings@));
            while i < cards.len()
                invariant
                    i <= cards@.len() == members.len(),
                    report@ == JsonView::Object(members),
                    forall|k: int|
                        0 <= k < members.len() ==> #[trigger] members[k] == (
                            cards@[k].0@,
                            cards@[k].1@,
                        ),
                    gpu_views(gpus@) == rocm_gpus(members.take(i as int), readings@),
                decreases cards@.len() - i,
            {
                assert(members.take(i + 1).drop_last() == members.take(i as int));
                assert(members.take(i + 1).last() == members[i as int]);
                match parse_card(cards[i].0.as_str(), &cards[i].1, readings) {
                    Some(g) => {
                        push_gpu(&mut gpus, g);
                    },
                    None => {},
                }
                i += 1;
            }
            assert(members.take(members.len() as int) == members);
            Some(gpus)
        },
        _ => None,
    }
}

/// The GPUs that the bytes of `rocm-smi` report, of a run that succeeded.
pub open spec fn rocm_report(
    success: bool,
    stdout: Seq<u8>,
    readings: Seq<FloatReading>,
) -> Option<Seq<GpuView>> {
    match json_of_bytes(stdout) {
        Some(JsonView::Object(members)) => if success {
            Some(rocm_gpus(members, readings))
        } else {
            None
        },
        _ => None,
    }
}

/// The GPUs that a run of `rocm-smi` reports: none of a run that failed, or whose
/// output is no JSON object.
pub fn sample_rocm(output: Option<&ProgramOutput>, readings: &Vec<FloatReading>) -> (r: Option<
    Vec<GpuStatus>,
>)
    ensures
        output matches Some(out) ==> opt_gpu_views(r) == rocm_report(
            out.success,
            out.stdout@,
            readings@,
        ),
        output is None ==> r is None,
        opt_gpu_views(r) == (match output {
            Some(out) => if out.success {
                match json_of_bytes(out.stdout@) {
                    Some(JsonView::Object(members)) => Some(rocm_gpus(members, readings@)),
                    _ => None,
                }
            } else {
                None
            },
            None => None,
        }),
{
    match output {
        Some(out) => {
            if !out.success {
                return None;
            }
            match parse_bytes(out.stdout.as_slice()) {
                Some(report) => parse_rocm(&report, readings),
                None => None,
            }
        },
        None => None,
    }
}

/// The text under a key that has to be read as a decimal fraction, since it is no
/// integer.
pub open spec fn fraction_under(card: JsonView, key: Seq<char>) -> Option<Seq<char>> {
    match card.member(key) {
        Some(JsonView::Text(s)) => if parsed_number(trimmed(s), u64::MAX as nat) is None {
            Some(trimmed(s))
        } else {
            None
        },
        _ => None,
    }
}

/// The texts under the keys that have to be read as decimal fractions.
pub open spec fn fractions_under(card: JsonView, keys: Seq<Seq<char>>) -> Seq<Seq<char>>
    decreases keys.len(),
{
    if keys.len() == 0 {
        Seq::empty()
    } else {
        let before = fractions_under(card, keys.drop_last());
        match fraction_under(card, keys.last()) {
            Some(t) => before.push(t),
            None => before,
        }
    }
}

/// The keys of a card under which numbers are looked for.
pub open spec fn number_keys() -> Seq<Seq<char>> {
    total_keys() + used_keys() + use_keys()
}

/// The texts of a report that have to be read as decimal fractions.
pub open spec fn fractions_in(members: Seq<(Seq<char>, JsonView)>) -> Seq<Seq<char>>
    decreases members.len(),
{
    if members.len() == 0 {
        Seq::empty()
    } else {
        fractions_in(members.drop_last()) + fractions_under(members.last().1, number_keys())
    }
}

fn card_fractions(card: &Json, out: &mut Vec<String>)
    ensures
        texts(final(out)@) == texts(old(out)@) + fractions_under(card@, number_keys()),
{
    let keys = vec![
        "VRAM Total Memory (B)",
        "VRAM Total Memory",
        "VRAM Total Used Memory (B)",
        "VRAM Total Used Memory",
        "GPU use (%)",
    ];
    let ghost all = slice_texts(keys@);
    assert(all =~= number_keys());
    let ghost before = texts(out@);
    let mut i: usize = 0;
    assert(before + fractions_under(card@, all.take(0)) =~= before);
    while i < keys.len()
        invariant
            i <= keys@.len(),
            all == slice_texts(keys@),
            texts(out@) == before + fractions_under(card@, all.take(i as int)),
        decreases keys@.len() - i,
    {
        assert(all.take(i + 1).drop_last() == all.take(i as int));
        assert(all.take(i + 1).last() == keys@[i as int]@);
        let ghost so_far = texts(out@);
        if let Some(v) = card.get(keys[i]) {
            if let Json::Text(s) = v {
                let t = trim(s.as_str());
                if parse_u64(t.as_str()).is_none() {
                    out.push(t);
                    assert(texts(out@) =~= so_far.push(trimmed(s@)));
                }
            }
        }
        i += 1;
        assert(texts(out@) =~= before + fractions_under(card@, all.take(i as int)));
    }
    assert(all.take(all.len() as int) == all);
}

/// The texts of a run of `rocm-smi` that have to be read as decimal fractions
/// before [`sample_rocm`] is called.
pub fn fraction_texts(output: Option<&ProgramOutput>) -> (r: Vec<String>)
    ensures
        texts(r@) == (match output {
            Some(out) => match json_of_bytes(out.stdout@) {
                Some(JsonView::Object(members)) => fractions_in(members),
                _ => Seq::empty(),
            },
            None => Seq::empty(),
        }),
{
    let mut texts_found: Vec<String> = Vec::new();
    assert(texts(texts_found@) =~= Seq::<Seq<char>>::empty());
    let output = match output {
        Some(out) => out,
        None => {
            return texts_found;
        },
    };
    let report = match parse_bytes(output.stdout.as_slice()) {
        Some(report) => report,
        None => {
            return texts_found;
        },
    };
    if let Json::Object(cards) = &report {
        let ghost members = report@->Object_0;
        let mut i: usize = 0;
        assert(members.take(0).len() == 0);
        while i < cards.len()
            invariant
                i <= cards@.len() == members.len(),
                forall|k: int|
                    0 <= k < members.len() ==> #[trigger] members[k] == (
                        cards@[k].0@,
                        cards@[k].1@,
                    ),
                texts(texts_found@) == fractions_in(members.take(i as int)),
            decreases cards@.len() - i,
        {
            assert(members.take(i + 1).drop_last() == members.take(i as int));
            assert(members.take(i + 1).last() == members[i as int]);
            card_fractions(&cards[i].1, &mut texts_found);
            i += 1;
        }
        assert(members.take(members.len() as int) == members);
    }
    texts_found
}

/// Whether two rows of readings say the same of each of the texts.
pub open spec fn same_readings(
    asked: Seq<Seq<char>>,
    a: Seq<FloatReading>,
    b: Seq<FloatReading>,
) -> bool {
    forall|i: int|
        0 <= i < asked.len() ==> reading_of(a, #[trigger] asked[i]) == reading_of(b, asked[i])
}

proof fn lemma_fraction_listed(card: JsonView, keys: Seq<Seq<char>>, k: int)
    requires
        0 <= k < keys.len(),
        fraction_under(card, keys[k]) is Some,
    ensures
        fractions_under(card, keys).contains(fraction_under(card, keys[k])->0),
    decreases keys.len(),
{
    let t = fraction_under(card, keys[k])->0;
    let before = fractions_under(card, keys.drop_last());
    let all = fractions_under(card, keys);
    if k < keys.len() - 1 {
        lemma_fraction_listed(card, keys.drop_last(), k);
        let i = choose|i: int| 0 <= i < before.len() && before[i] == t;
        assert(all[i] == t);
    } else {
        assert(all.last() == t);
    }
}

proof fn lemma_same_number(
    card: JsonView,
    all: Seq<Seq<char>>,
    from: int,
    keys: Seq<Seq<char>>,
    a: Seq<FloatReading>,
    b: Seq<FloatReading>,
)
    requires
        0 <= from,
        from + keys.len() <= all.len(),
        forall|i: int| 0 <= i < keys.len() ==> #[trigger] keys[i] == all[from + i],
        same_readings(fractions_under(card, all), a, b),
    ensures
        number_under(card, keys, a) == number_under(card, keys, b),
    decreases keys.len(),
{
    if keys.len() > 0 {
        assert(keys[0] == all[from]);
        if fraction_under(card, keys[0]) is Some {
            lemma_fraction_listed(card, all, from);
            let asked = fractions_under(card, all);
            let t = fraction_under(card, all[from])->0;
            let i = choose|i: int| 0 <= i < asked.len() && asked[i] == t;
            assert(reading_of(a, asked[i]) == reading_of(b, asked[i]));
        }
        let rest = keys.drop_first();
        assert forall|i: int| 0 <= i < rest.len() implies #[trigger] rest[i] == all[from + 1
            + i] by {
            assert(rest[i] == keys[i + 1]);
        }
        lemma_same_number(card, all, from + 1, rest, a, b);
    }
}

/// Of the readings only those of the listed texts count: rows of readings that
/// agree on them give the same GPUs.
pub proof fn listed_fractions_suffice(
    members: Seq<(Seq<char>, JsonView)>,
    a: Seq<FloatReading>,
    b: Seq<FloatReading>,
)
    requires
        same_readings(fractions_in(members), a, b),
    ensures
        rocm_gpus(members, a) == rocm_gpus(members, b),
    decreases members.len(),
{
    if members.len() > 0 {
        let asked = fractions_in(members);
        let first = fractions_in(members.drop_last());
        let card = members.last().1;
        let own = fractions_under(card, number_keys());
        assert forall|i: int| 0 <= i < first.len() implies reading_of(a, #[trigger] first[i])
            == reading_of(b, first[i]) by {
            assert(asked[i] == first[i]);
        }
        assert forall|i: int| 0 <= i < own.len() implies reading_of(a, #[trigger] own[i])
            == reading_of(b, own[i]) by {
            assert(asked[first.len() + i] == own[i]);
        }
        listed_fractions_suffice(members.drop_last(), a, b);
        lemma_same_number(card, number_keys(), 0, total_keys(), a, b);
        lemma_same_number(card, number_keys(), 2, used_keys(), a, b);
        lemma_same_number(card, number_keys(), 4, use_keys(), a, b);
    }
}

/// Total and available memory in kibibytes, as the lines of `/proc/meminfo` give
/// them; of two lines for one figure the last one counts.
pub open spec fn meminfo(lines: Seq<Seq<char>>) -> (nat, nat)
    decreases lines.len(),
{
    if lines.len() == 0 {
        (0, 0)
    } else {
        let (total, avail) = meminfo(lines.drop_last());
        let parts = words_of(lines.last());
        let figure = if parts.len() > 1 {
            number_or_zero(parts[1], u64::MAX as nat)
        } else {
            0
        };
        if parts.len() > 0 && parts[0] == "MemTotal:"@ {
            (figure, avail)
        } else if parts.len() > 0 && parts[0] == "MemAvailable:"@ {
            (total, figure)
        } else {
            (total, avail)
        }
    }
}

/// Total and used system memory in mebibytes, where the total is known.
pub open spec fn memory_from(total_kb: nat, avail_kb: nat) -> Option<MemStatus> {
    if total_kb == 0 {
        None
    } else {
        Some(
            MemStatus {
                total_mb: (total_kb / 1024) as u64,
                used_mb: (if avail_kb < total_kb {
                    ((total_kb - avail_kb) / 1024) as u64
                } else {
                    0
                }),
            },
        )
    }
}

/// Total and used system memory, as the text of `/proc/meminfo` gives it.
pub open spec fn memory_in(text: Seq<char>) -> Option<MemStatus> {
    let (total_kb, avail_kb) = meminfo(lines_of(text));
    memory_from(total_kb, avail_kb)
}

/// Read total/used system memory from the text of `/proc/meminfo` (values in MB);
/// `None` where it could not be read or gives no total.
pub fn sample_ram(text: Option<&str>) -> (r: Option<MemStatus>)
    ensures
        r == (match text {
            Some(t) => memory_in(t@),
            None => None,
        }),
        r matches Some(m) ==> m.used_mb <= m.total_mb,
{
    let text = match text {
        Some(t) => t,
        None => {
            return None;
        },
    };
    proof {
        reveal_strlit("MemTotal:");
        reveal_strlit("MemAvailable:");
        assert("MemTotal:"@.len() != "MemAvailable:"@.len());
    }
    let rows = lines(text);
    let ghost all = lines_of(text@);
    let mut total_kb: u64 = 0;
    let mut avail_kb: u64 = 0;
    let mut i: usize = 0;
    while i < rows.len()
        invariant
            i <= rows@.len(),
            texts(rows@) == all,
            "MemTotal:"@ != "MemAvailable:"@,
            (total_kb as nat, avail_kb as nat) == meminfo(all.take(i as int)),
        decreases rows@.len() - i,
    {
        assert(all.take(i + 1).drop_last() == all.take(i as int));
        assert(all.take(i + 1).last() == rows@[i as int]@);
        let parts = words(rows[i].as_str());
        let ghost split = words_of(all[i as int]);
        assert(texts(parts@) == split);
        if parts.len() > 0 {
            assert(split[0] == parts@[0]@);
            let figure: u64 = if parts.len() > 1 {
                assert(split[1] == parts@[1]@);
                parse_u64(parts[1].as_str()).unwrap_or(0)
            } else {
                0
            };
            if same_text(parts[0].as_str(), "MemTotal:") {
                total_kb = figure;
            } else if same_text(parts[0].as_str(), "MemAvailable:") {
                avail_kb = figure;
            }
        }
        i += 1;
    }
    assert(all.take(all.len() as int) == all);
    if total_kb == 0 {
        return None;
    }
    Some(
        MemStatus { total_mb: total_kb / 1024, used_mb: total_kb.saturating_sub(avail_kb) / 1024 },
    )
}

/// The address under which the arbiter is reached from this machine: an address
/// of all interfaces becomes the loopback address.
pub open spec fn local_addr(listen: Seq<char>) -> Seq<char> {
    if begins_with(listen, ":"@) {
        "127.0.0.1:"@ + listen.skip(1)
    } else if begins_with(listen, "0.0.0.0:"@) {
        "127.0.0.1"@ + listen.skip(7)
    } else {
        listen
    }
}

/// The address under which the arbiter is reached from this machine.
pub fn normalize_addr(listen: &str) -> (r: String)
    ensures
        r@ == local_addr(listen@),
{
    proof {
        reveal_strlit(":");
        reveal_strlit("0.0.0.0:");
        assert(":"@.len() == 1);
        assert("0.0.0.0:"@.len() == 8);
    }
    if starts_with(listen, ":") {
        let port = skip_chars(listen, 1);
        "127.0.0.1:".to_owned().concat(port.as_str())
    } else if starts_with(listen, "0.0.0.0:") {
        let rest = skip_chars(listen, 7);
        "127.0.0.1".to_owned().concat(rest.as_str())
    } else {
        listen.to_owned()
    }
}

/// The address for this machine is left as it is.
pub proof fn local_addr_is_final(listen: Seq<char>)
    ensures
        local_addr(local_addr(listen)) == local_addr(listen),
{
    let out = local_addr(listen);
    reveal_strlit(":");
    reveal_strlit("0.0.0.0:");
    reveal_strlit("127.0.0.1:");
    reveal_strlit("127.0.0.1");
    assert(":"@[0] == ':');
    assert("0.0.0.0:"@[0] == '0');
    assert("127.0.0.1:"@[0] == '1');
    assert("127.0.0.1"@[0] == '1');
    if out != listen {
        assert(out[0] == '1');
        assert(!begins_with(out, ":"@)) by {
            if begins_with(out, ":"@) {
                assert(out.subrange(0, ":"@.len() as int)[0] == ":"@[0]);
            }
        }
        assert(!begins_with(out, "0.0.0.0:"@)) by {
            if begins_with(out, "0.0.0.0:"@) {
                assert(out.subrange(0, "0.0.0.0:"@.len() as int)[0] == "0.0.0.0:"@[0]);
            }
        }
    }
}

/// The request that asks for `path` at `addr`.
pub open spec fn get_request(addr: Seq<char>, path: Seq<char>) -> Seq<char> {
    "GET "@ + path + " HTTP/1.0\r\nHost: "@ + addr
        + "\r\nAccept: application/json\r\nConnection: close\r\n\r\n"@
}

/// A minimal HTTP/1.0 GET request.
pub fn http_request(addr: &str, path: &str) -> (r: String)
    ensures
        r@ == get_request(addr@, path@),
{
    "GET ".to_owned().concat(path).concat(" HTTP/1.0\r\nHost: ").concat(addr).concat(
        "\r\nAccept: application/json\r\nConnection: close\r\n\r\n",
    )
}

/// Whether an empty line, with the line ending before it, stands at `i`.
pub open spec fn blank_line_at(s: Seq<char>, i: int) -> bool {
    &&& i + 4 <= s.len()
    &&& s[i] == '\r'
    &&& s[i + 1] == '\n'
    &&& s[i + 2] == '\r'
    &&& s[i + 3] == '\n'
}

/// The first place from `i` on where an empty line stands, or the end of the
/// text.
pub open spec fn blank_line_from(s: Seq<char>, i: int) -> int
    decreases s.len() - i,
{
    if i >= s.len() || blank_line_at(s, i) {
        i
    } else {
        blank_line_from(s, i + 1)
    }
}

/// The body of an HTTP response: all that follows the first empty line.
pub open spec fn http_body(s: Seq<char>) -> Option<Seq<char>> {
    let head = blank_line_from(s, 0);
    if head >= s.len() {
        None
    } else {
        Some(s.skip(head + 4))
    }
}

fn find_blank_line(v: &Vec<char>) -> (r: usize)
    ensures
        r == blank_line_from(v@, 0),
        r <= v@.len(),
        r < v@.len() ==> blank_line_at(v@, r as int),
{
    let mut i: usize = 0;
    while i < v.len()
        invariant
            i <= v@.len(),
            blank_line_from(v@, 0) == blank_line_from(v@, i as int),
        decreases v@.len() - i,
    {
        if v.len() - i >= 4 && v[i] == '\r' && v[i + 1] == '\n' && v[i + 2] == '\r' && v[i + 3]
            == '\n' {
            return i;
        }
        i += 1;
    }
    i
}

/// The body of an HTTP response, if it has one.
pub fn response_body(text: &str) -> (r: Option<String>)
    ensures
        (match r {
            Some(s) => Some(s@),
            None => None,
        }) == http_body(text@),
{
    let v = chars_of(text);
    let head = find_blank_line(&v);
    if head >= v.len() {
        return None;
    }
    let body = string_of(&v, head + 4, v.len());
    assert(body@ =~= text@.skip(head + 4));
    Some(body)
}

/// The name under which an item of the arbiter's list runs.
pub open spec fn running_name(item: JsonView) -> Option<Seq<char>> {
    let label = match item.member("model"@) {
        Some(v) => Some(v),
        None => item.member("name"@),
    };
    match label {
        Some(v) => v.text(),
        None => None,
    }
}

/// The names of the items that have one, in order.
pub open spec fn running_names(items: Seq<JsonView>) -> Seq<Seq<char>>
    decreases items.len(),
{
    if items.len() == 0 {
        Seq::empty()
    } else {
        let before = running_names(items.drop_last());
        match running_name(items.last()) {
            Some(name) => before.push(name),
            None => before,
        }
    }
}

/// The models that a reply of `/running` lists: the items of its member
/// `running` where that is an array, else its own items.
pub open spec fn running_in(v: JsonView) -> Seq<Seq<char>> {
    match v.member("running"@) {
        Some(JsonView::Array(items)) => running_names(items),
        _ => match v {
            JsonView::Array(items) => running_names(items),
            _ => Seq::empty(),
        },
    }
}

fn names_in(list: &Vec<Json>, Ghost(items): Ghost<Seq<JsonView>>) -> (r: Vec<String>)
    requires
        items.len() == list@.len(),
        forall|k: int| 0 <= k < items.len() ==> #[trigger] items[k] == list@[k]@,
    ensures
        texts(r@) == running_names(items),
{
    let mut out: Vec<String> = Vec::new();
    let mut i: usize = 0;
    assert(texts(out@) =~= running_names(items.take(0)));
    while i < list.len()
        invariant
            i <= list@.len() == items.len(),
            forall|k: int| 0 <= k < items.len() ==> #[trigger] items[k] == list@[k]@,
            texts(out@) == running_names(items.take(i as int)),
        decreases list@.len() - i,
    {
        assert(items.take(i + 1).drop_last() == items.take(i as int));
        assert(items.take(i + 1).last() == items[i as int]);
        let label = match list[i].get("model") {
            Some(v) => Some(v),
            None => list[i].get("name"),
        };
        if let Some(v) = label {
            if let Some(s) = v.as_str() {
                let ghost before = texts(out@);
                out.push(s.clone());
                assert(texts(out@) =~= before.push(s@));
            }
        }
        i += 1;
    }
    assert(items.take(items.len() as int) == items);
    out
}

/// The models that a reply of `/running` lists.
pub fn extract_running(v: &Json) -> (r: Vec<String>)
    ensures
        texts(r@) == running_in(v@),
{
    if let Some(list) = v.get("running") {
        if let Json::Array(items) = list {
            return names_in(items, Ghost(list@->Array_0));
        }
    }
    if let Json::Array(items) = v {
        return names_in(items, Ghost(v@->Array_0));
    }
    let out: Vec<String> = Vec::new();
    assert(texts(out@) =~= Seq::<Seq<char>>::empty());
    out
}

/// The models that the bytes of an HTTP response list: none where it has no body,
/// or the body is no JSON.
pub open spec fn running_in_response(bytes: Seq<u8>) -> Seq<Seq<char>> {
    match http_body(utf8_lossy(bytes)) {
        Some(body) => match json_of_text(trimmed(body)) {
            Some(v) => running_in(v),
            None => Seq::empty(),
        },
        None => Seq::empty(),
    }
}

/// Which models are currently running, from the bytes that llama-swap answered.
/// Best effort: any failure yields an empty list rather than an error.
pub fn query_running(response: Option<&Vec<u8>>) -> (r: Vec<String>)
    ensures
        texts(r@) == (match response {
            Some(bytes) => running_in_response(bytes@),
            None => Seq::empty(),
        }),
{
    let none: Vec<String> = Vec::new();
    assert(texts(none@) =~= Seq::<Seq<char>>::empty());
    match response {
        Some(bytes) => {
            let text = read_utf8_lossy(bytes.as_slice());
            match response_body(text.as_str()) {
                Some(body) => match parse_text(trim(body.as_str()).as_str()) {
                    Some(v) => extract_running(&v),
                    None => none,
                },
                None => none,
            }
        },
        None => none,
    }
}

/// The log line that notes a sampling problem.
pub fn log_sample_error(context: &str, msg: &str) -> (r: String)
    ensures
        r@ == log_line("sample "@ + context@ + ": "@ + msg@),
{
    log("sample ".to_owned().concat(context).concat(": ").concat(msg).as_str())
}

} // verus!
