//! What the text primitives do, as relations between texts.

use crate::text::{
    decimal, decimal_reads_back, digits_value, is_digit, is_whitespace, joined, lines_of, padded,
    parsed_number, split_at_char, trim_end, trim_start, trimmed, without_plus, without_return,
    words_of,
};
use vstd::prelude::*;

verus! {

/// Whitespace is the tabs, line ends, spaces and separators of Unicode, and nothing
/// else; no letter, digit or punctuation of ASCII is.
pub proof fn whitespace_is_what_unicode_lists(c: char)
    ensures
        is_whitespace(c) == set![
            0x9u32,
            0xA,
            0xB,
            0xC,
            0xD,
            0x20,
            0x85,
            0xA0,
            0x1680,
            0x2000,
            0x2001,
            0x2002,
            0x2003,
            0x2004,
            0x2005,
            0x2006,
            0x2007,
            0x2008,
            0x2009,
            0x200A,
            0x2028,
            0x2029,
            0x202F,
            0x205F,
            0x3000,
        ].contains(c as u32),
        '!' <= c <= '~' ==> !is_whitespace(c),
{
}

/// Whether every character of a text is whitespace.
pub open spec fn is_blank(s: Seq<char>) -> bool {
    forall|i: int| 0 <= i < s.len() ==> is_whitespace(#[trigger] s[i])
}

proof fn lemma_trim_start(before: Seq<char>, rest: Seq<char>)
    requires
        is_blank(before),
        rest.len() == 0 || !is_whitespace(rest[0]),
    ensures
        trim_start(before + rest) == rest,
    decreases before.len(),
{
    if before.len() == 0 {
        assert(before + rest =~= rest);
    } else {
        let s = before + rest;
        assert(is_whitespace(before[0]));
        assert(s.drop_first() =~= before.drop_first() + rest);
        assert forall|i: int| 0 <= i < before.drop_first().len() implies is_whitespace(
            #[trigger] before.drop_first()[i],
        ) by {
            assert(is_whitespace(before[i + 1]));
        }
        lemma_trim_start(before.drop_first(), rest);
    }
}

proof fn lemma_trim_end(rest: Seq<char>, after: Seq<char>)
    requires
        is_blank(after),
        rest.len() == 0 || !is_whitespace(rest[rest.len() - 1]),
    ensures
        trim_end(rest + after) == rest,
    decreases after.len(),
{
    if after.len() == 0 {
        assert(rest + after =~= rest);
    } else {
        let s = rest + after;
        assert(is_whitespace(after[after.len() - 1]));
        assert(s.drop_last() =~= rest + after.drop_last());
        assert forall|i: int| 0 <= i < after.drop_last().len() implies is_whitespace(
            #[trigger] after.drop_last()[i],
        ) by {
            assert(is_whitespace(after[i]));
        }
        lemma_trim_end(rest, after.drop_last());
    }
}

/// Trimming takes the whitespace around a text away, and nothing of the text.
pub proof fn trimming_keeps_the_core(before: Seq<char>, core: Seq<char>, after: Seq<char>)
    requires
        is_blank(before),
        is_blank(after),
        core.len() > 0 ==> !is_whitespace(core[0]) && !is_whitespace(core[core.len() - 1]),
    ensures
        trimmed(before + core + after) == core,
{
    let s = before + core + after;
    if core.len() == 0 {
        assert(s =~= (before + after) + core);
        assert forall|i: int| 0 <= i < (before + after).len() implies is_whitespace(
            #[trigger] (before + after)[i],
        ) by {
            if i < before.len() {
                assert(is_whitespace(before[i]));
            } else {
                assert(is_whitespace(after[i - before.len()]));
            }
        }
        lemma_trim_start(before + after, core);
        assert(trim_end(core) == core);
    } else {
        assert(s =~= before + (core + after));
        lemma_trim_start(before, core + after);
        lemma_trim_end(core, after);
    }
}

proof fn lemma_split_one(s: Seq<char>, sep: char)
    requires
        !s.contains(sep),
    ensures
        split_at_char(s, sep) == seq![s],
    decreases s.len(),
{
    if s.len() == 0 {
        assert(s =~= Seq::empty());
    } else {
        assert(s.contains(s[s.len() - 1]));
        assert forall|i: int| 0 <= i < s.drop_last().len() implies s.drop_last()[i] != sep by {
            assert(s.contains(s[i]));
        }
        lemma_split_one(s.drop_last(), sep);
        assert(seq![s.drop_last()].drop_last() =~= Seq::<Seq<char>>::empty());
        assert(s.drop_last().push(s.last()) =~= s);
        assert(split_at_char(s, sep) =~= seq![s]);
    }
}

proof fn lemma_split_last(a: Seq<char>, b: Seq<char>, sep: char)
    requires
        !b.contains(sep),
    ensures
        split_at_char(a.push(sep) + b, sep) == split_at_char(a, sep).push(b),
    decreases b.len(),
{
    let s = a.push(sep) + b;
    if b.len() == 0 {
        assert(s =~= a.push(sep));
        assert(s.drop_last() =~= a);
        assert(b =~= Seq::empty());
    } else {
        assert(b.contains(b[b.len() - 1]));
        assert forall|i: int| 0 <= i < b.drop_last().len() implies b.drop_last()[i] != sep by {
            assert(b.contains(b[i]));
        }
        lemma_split_last(a, b.drop_last(), sep);
        assert(s.drop_last() =~= a.push(sep) + b.drop_last());
        let before = split_at_char(a, sep).push(b.drop_last());
        assert(before.drop_last() =~= split_at_char(a, sep));
        assert(b.drop_last().push(b.last()) =~= b);
    }
}

/// A piece and a separator in front of a text put the piece in front of its pieces.
pub proof fn split_takes_the_first_piece(piece: Seq<char>, rest: Seq<char>, sep: char)
    requires
        !piece.contains(sep),
    ensures
        split_at_char(piece.push(sep) + rest, sep) == seq![piece] + split_at_char(rest, sep),
        split_at_char(piece, sep) == seq![piece],
    decreases rest.len(),
{
    lemma_split_one(piece, sep);
    lemma_split_not_empty(rest, sep);
    let s = piece.push(sep) + rest;
    if rest.len() == 0 {
        assert(s =~= piece.push(sep));
        assert(s.drop_last() =~= piece);
        assert(split_at_char(s, sep) =~= seq![piece] + split_at_char(rest, sep));
    } else {
        let shorter = rest.drop_last();
        split_takes_the_first_piece(piece, shorter, sep);
        lemma_split_not_empty(shorter, sep);
        assert(s.drop_last() =~= piece.push(sep) + shorter);
        let pieces = split_at_char(shorter, sep);
        let before = seq![piece] + pieces;
        assert(before.last() == pieces.last());
        assert(before.drop_last() =~= seq![piece] + pieces.drop_last());
        assert(split_at_char(s, sep) =~= seq![piece] + split_at_char(rest, sep));
    }
}

proof fn lemma_split_not_empty(s: Seq<char>, sep: char)
    ensures
        split_at_char(s, sep).len() > 0,
    decreases s.len(),
{
    if s.len() > 0 {
        lemma_split_not_empty(s.drop_last(), sep);
    }
}

/// Splitting a text at the character that its parts were joined with gives the
/// parts back.
pub proof fn split_undoes_join(parts: Seq<Seq<char>>, sep: char)
    requires
        parts.len() > 0,
        forall|i: int| 0 <= i < parts.len() ==> !(#[trigger] parts[i]).contains(sep),
    ensures
        split_at_char(joined(parts, seq![sep]), sep) == parts,
    decreases parts.len(),
{
    if parts.len() == 1 {
        lemma_split_one(parts[0], sep);
        assert(parts =~= seq![parts[0]]);
    } else {
        let first = parts.drop_last();
        assert forall|i: int| 0 <= i < first.len() implies !(#[trigger] first[i]).contains(sep) by {
            assert(first[i] == parts[i]);
        }
        split_undoes_join(first, sep);
        let head = joined(first, seq![sep]);
        assert(!parts[parts.len() - 1].contains(sep));
        assert(joined(parts, seq![sep]) =~= head.push(sep) + parts.last());
        lemma_split_last(head, parts.last(), sep);
        assert(first.push(parts.last()) =~= parts);
    }
}

/// Joining the pieces of a text with the character it was split at gives the text
/// back, and no piece holds that character.
pub proof fn join_undoes_split(s: Seq<char>, sep: char)
    ensures
        joined(split_at_char(s, sep), seq![sep]) == s,
        forall|i: int|
            0 <= i < split_at_char(s, sep).len() ==> !(#[trigger] split_at_char(s, sep)[i]).contains(
                sep,
            ),
    decreases s.len(),
{
    let out = split_at_char(s, sep);
    if s.len() == 0 {
        assert(out =~= seq![Seq::<char>::empty()]);
        assert(s =~= Seq::empty());
    } else {
        let t = s.drop_last();
        let before = split_at_char(t, sep);
        join_undoes_split(t, sep);
        lemma_split_not_empty(t, sep);
        assert(s =~= t.push(s.last()));
        if s.last() == sep {
            assert(out.drop_last() =~= before);
            assert(joined(out, seq![sep]) =~= s);
            assert forall|i: int| 0 <= i < out.len() implies !(#[trigger] out[i]).contains(sep) by {
                if i < before.len() {
                    assert(out[i] == before[i]);
                }
            }
        } else {
            let last = before.last().push(s.last());
            assert(out.drop_last() =~= before.drop_last());
            assert(!before[before.len() - 1].contains(sep));
            if before.len() == 1 {
                assert(joined(before, seq![sep]) == before[0]);
                assert(joined(out, seq![sep]) == out[0]);
            } else {
                assert(joined(out, seq![sep]) =~= joined(before, seq![sep]).push(s.last()));
            }
            assert forall|i: int| 0 <= i < out.len() implies !(#[trigger] out[i]).contains(sep) by {
                if i < before.len() - 1 {
                    assert(out[i] == before[i]);
                } else {
                    assert forall|k: int| 0 <= k < last.len() implies last[k] != sep by {
                        if k < last.len() - 1 {
                            assert(before.last().contains(before.last()[k]));
                        }
                    }
                }
            }
        }
    }
}

/// Joining two rows is joining each and putting the separator between them.
pub proof fn joining_is_piecewise(a: Seq<Seq<char>>, b: Seq<Seq<char>>, sep: Seq<char>)
    requires
        a.len() > 0,
        b.len() > 0,
    ensures
        joined(a + b, sep) == joined(a, sep) + sep + joined(b, sep),
        joined(seq![a[0]], sep) == a[0],
        joined(Seq::<Seq<char>>::empty(), sep) == Seq::<char>::empty(),
    decreases b.len(),
{
    assert((a + b).last() == b.last());
    assert((a + b).drop_last() =~= a + b.drop_last());
    if b.len() == 1 {
        assert(a + b.drop_last() =~= a);
    } else {
        joining_is_piecewise(a, b.drop_last(), sep);
        assert(joined(a + b, sep) =~= joined(a, sep) + sep + joined(b, sep));
    }
}

/// A line and its end in front of a text put the line in front of the text's lines;
/// the end is a line feed, with or without a carriage return before it.
pub proof fn lines_come_one_by_one(line: Seq<char>, rest: Seq<char>)
    requires
        !line.contains('\n'),
        line.len() == 0 || line[line.len() - 1] != '\r',
    ensures
        lines_of(line.push('\n') + rest) == seq![line] + lines_of(rest),
        lines_of(line.push('\r').push('\n') + rest) == seq![line] + lines_of(rest),
        line.len() > 0 ==> lines_of(line) == seq![line],
        lines_of(Seq::<char>::empty()) == Seq::<Seq<char>>::empty(),
{
    let crlf = line.push('\r');
    assert(!crlf.contains('\n')) by {
        assert forall|i: int| 0 <= i < crlf.len() implies crlf[i] != '\n' by {
            if i < line.len() {
                assert(line.contains(line[i]));
            }
        }
    }
    lemma_lines_first(line, rest);
    lemma_lines_first(crlf, rest);
    assert(without_return(crlf) =~= line);
    lemma_split_one(line, '\n');
    assert(seq![line].drop_last() =~= Seq::<Seq<char>>::empty());
    if line.len() > 0 {
        assert(lines_of(line) =~= seq![line]);
    }
    let none = Seq::<char>::empty();
    lemma_split_one(none, '\n');
    assert(seq![none].drop_last() =~= Seq::<Seq<char>>::empty());
    assert(lines_of(none) =~= Seq::<Seq<char>>::empty());
}

proof fn lemma_lines_first(line: Seq<char>, rest: Seq<char>)
    requires
        !line.contains('\n'),
    ensures
        lines_of(line.push('\n') + rest) == seq![without_return(line)] + lines_of(rest),
{
    split_takes_the_first_piece(line, rest, '\n');
    lemma_split_not_empty(rest, '\n');
    let pieces = split_at_char(rest, '\n');
    let all = split_at_char(line.push('\n') + rest, '\n');
    assert(all == seq![line] + pieces);
    assert(all.last() == pieces.last());
    assert(all.drop_last() =~= seq![line] + pieces.drop_last());
    let f = |p: Seq<char>| without_return(p);
    assert(all.drop_last().map_values(f) =~= seq![without_return(line)]
        + pieces.drop_last().map_values(f));
    assert(lines_of(line.push('\n') + rest) =~= seq![without_return(line)] + lines_of(rest));
}

/// Whether a text has no whitespace in it.
pub open spec fn is_word(s: Seq<char>) -> bool {
    s.len() > 0 && forall|i: int| 0 <= i < s.len() ==> !is_whitespace(#[trigger] s[i])
}

proof fn lemma_one_word(s: Seq<char>)
    requires
        is_word(s),
    ensures
        words_of(s) == seq![s],
    decreases s.len(),
{
    assert(!is_whitespace(s[s.len() - 1]));
    if s.len() == 1 {
        assert(words_of(s.drop_last()) =~= Seq::<Seq<char>>::empty());
        assert(seq![s.last()] =~= s);
        assert(words_of(s) =~= seq![s]);
    } else {
        let t = s.drop_last();
        assert forall|i: int| 0 <= i < t.len() implies !is_whitespace(#[trigger] t[i]) by {
            assert(!is_whitespace(s[i]));
        }
        lemma_one_word(t);
        assert(!is_whitespace(s[s.len() - 2]));
        assert(t.push(s.last()) =~= s);
        assert(seq![t].drop_last() =~= Seq::<Seq<char>>::empty());
        assert(words_of(s) =~= seq![s]);
    }
}

/// Words are what stands between whitespace: a text without any is one word, and
/// whitespace between two texts puts the words of the one behind those of the other.
pub proof fn words_are_what_stands_between(a: Seq<char>, space: char, b: Seq<char>)
    requires
        is_whitespace(space),
    ensures
        words_of(a.push(space) + b) == words_of(a) + words_of(b),
        is_word(a) ==> words_of(a) == seq![a],
        words_of(Seq::<char>::empty()) == Seq::<Seq<char>>::empty(),
    decreases b.len(),
{
    if is_word(a) {
        lemma_one_word(a);
    }
    let s = a.push(space) + b;
    if b.len() == 0 {
        assert(s =~= a.push(space));
        assert(s.drop_last() =~= a);
        assert(words_of(a) + words_of(b) =~= words_of(a));
    } else {
        let t = b.drop_last();
        words_are_what_stands_between(a, space, t);
        assert(s.drop_last() =~= a.push(space) + t);
        assert(s.last() == b.last());
        if !is_whitespace(b.last()) {
            if b.len() == 1 {
                assert(s[s.len() - 2] == space);
                assert(words_of(t) =~= Seq::<Seq<char>>::empty());
                assert(words_of(s) =~= words_of(a) + words_of(b));
            } else {
                assert(s[s.len() - 2] == b[b.len() - 2]);
                if !is_whitespace(b[b.len() - 2]) {
                    lemma_words_not_empty(t);
                    let before = words_of(a) + words_of(t);
                    assert(before.drop_last() =~= words_of(a) + words_of(t).drop_last());
                    assert(before.last() == words_of(t).last());
                }
                assert(words_of(s) =~= words_of(a) + words_of(b));
            }
        }
    }
}

proof fn lemma_words_not_empty(s: Seq<char>)
    requires
        s.len() > 0,
        !is_whitespace(s[s.len() - 1]),
    ensures
        words_of(s).len() > 0,
    decreases s.len(),
{
    if s.len() > 1 && !is_whitespace(s[s.len() - 2]) {
        lemma_words_not_empty(s.drop_last());
    }
}

/// A number is read from its decimal digits where it is not too large; a plus sign
/// or zeros in front make no difference, and a text that is empty or holds anything
/// else is no number.
pub proof fn numbers_are_decimal(n: nat, s: Seq<char>, max: nat)
    ensures
        parsed_number(decimal(n), max) == if n <= max {
            Some(n)
        } else {
            None
        },
        s.len() > 0 && s[0] != '+' ==> parsed_number(seq!['0'] + s, max) == parsed_number(s, max),
        s.len() > 0 && s[0] != '+' ==> parsed_number(seq!['+'] + s, max) == parsed_number(s, max),
        s.len() == 0 ==> parsed_number(s, max) is None && parsed_number(seq!['+'] + s, max) is None,
        (exists|i: int| 0 <= i < s.len() && !('0' <= #[trigger] s[i] <= '9') && (i > 0 || s[i] != '+'))
            ==> parsed_number(s, max) is None,
{
    decimal_reads_back(n, n);
    assert(parsed_number(decimal(n), n) == Some(n));
    if s.len() == 0 {
        assert(without_plus(seq!['+'] + s) =~= s);
    }
    if s.len() > 0 && s[0] != '+' {
        assert((seq!['+'] + s).drop_first() =~= s);
        let z = seq!['0'] + s;
        assert(without_plus(z) == z);
        lemma_zero_in_front(s);
        if forall|i: int| 0 <= i < s.len() ==> is_digit(#[trigger] s[i]) {
            assert forall|i: int| 0 <= i < z.len() implies is_digit(#[trigger] z[i]) by {
                if i > 0 {
                    assert(is_digit(s[i - 1]));
                }
            }
        } else {
            let i = choose|i: int| 0 <= i < s.len() && !is_digit(#[trigger] s[i]);
            assert(z[i + 1] == s[i]);
        }
    }
    if exists|i: int| 0 <= i < s.len() && !('0' <= #[trigger] s[i] <= '9') && (i > 0 || s[i] != '+') {
        let i = choose|i: int|
            0 <= i < s.len() && !('0' <= #[trigger] s[i] <= '9') && (i > 0 || s[i] != '+');
        let digits = without_plus(s);
        if s[0] == '+' {
            assert(digits[i - 1] == s[i]);
            assert(!is_digit(digits[i - 1]));
        } else {
            assert(!is_digit(digits[i]));
        }
    }
}

proof fn lemma_zero_in_front(s: Seq<char>)
    ensures
        digits_value(seq!['0'] + s) == digits_value(s),
    decreases s.len(),
{
    let z = seq!['0'] + s;
    if s.len() == 0 {
        assert(z =~= seq!['0']);
        assert(z.drop_last() =~= Seq::<char>::empty());
        assert(digits_value(z.drop_last()) == 0);
    } else {
        lemma_zero_in_front(s.drop_last());
        assert(z.drop_last() =~= seq!['0'] + s.drop_last());
        assert(z.last() == s.last());
    }
}

/// Padding keeps the text and puts nothing but spaces behind it, up to the width.
pub proof fn padding_adds_spaces(s: Seq<char>, width: nat)
    ensures
        padded(s, width).len() == if s.len() < width {
            width
        } else {
            s.len()
        },
        padded(s, width).take(s.len() as int) == s,
        forall|i: int| s.len() <= i < padded(s, width).len() ==> padded(s, width)[i] == ' ',
{
    assert(padded(s, width).take(s.len() as int) =~= s);
}

} // verus!
