//! Quoting of arguments for a shell command line, and what a shell reads.

use crate::text::{chars_of, joined};
use vstd::prelude::*;

verus! {

/// The characters that stand for themselves in a command line.
pub open spec fn is_plain(c: char) -> bool {
    ||| 'a' <= c <= 'z'
    ||| 'A' <= c <= 'Z'
    ||| '0' <= c <= '9'
    ||| c == '_'
    ||| c == '-'
    ||| c == '.'
    ||| c == '/'
    ||| c == ':'
    ||| c == '='
    ||| c == '+'
}

/// Whether every character stands for itself.
pub open spec fn all_plain(s: Seq<char>) -> bool {
    forall|i: int| 0 <= i < s.len() ==> is_plain(#[trigger] s[i])
}

/// `s` as it is written between single quotes: a single quote closes them, stands
/// behind a backslash, and opens them again.
pub open spec fn escaped(s: Seq<char>) -> Seq<char>
    decreases s.len(),
{
    if s.len() == 0 {
        Seq::empty()
    } else if s.last() == '\'' {
        escaped(s.drop_last()) + seq!['\'', '\\', '\'', '\'']
    } else {
        escaped(s.drop_last()).push(s.last())
    }
}

/// The argument as it is written in a command line: as it is where it is not
/// empty and every character stands for itself, else between single quotes.
pub open spec fn quoted(arg: Seq<char>) -> Seq<char> {
    if arg.len() > 0 && all_plain(arg) {
        arg
    } else {
        seq!['\''] + escaped(arg) + seq!['\'']
    }
}

fn plain(c: char) -> (r: bool)
    ensures
        r == is_plain(c),
{
    ('a' <= c && c <= 'z') || ('A' <= c && c <= 'Z') || ('0' <= c && c <= '9') || c == '_' || c
        == '-' || c == '.' || c == '/' || c == ':' || c == '=' || c == '+'
}

/// Quote an argument for safe inclusion in a single shell command line.
pub fn shell_quote(arg: &str) -> (r: String)
    ensures
        r@ == quoted(arg@),
{
    let v = chars_of(arg);
    let mut i: usize = 0;
    while i < v.len() && plain(v[i])
        invariant
            i <= v@.len(),
            forall|k: int| 0 <= k < i ==> is_plain(#[trigger] v@[k]),
        decreases v@.len() - i,
    {
        i += 1;
    }
    if v.len() > 0 && i == v.len() {
        return arg.to_owned();
    }
    let mut out = String::new();
    out.push('\'');
    let mut k: usize = 0;
    assert(out@ =~= seq!['\''] + escaped(v@.take(0)));
    while k < v.len()
        invariant
            k <= v@.len(),
            out@ == seq!['\''] + escaped(v@.take(k as int)),
        decreases v@.len() - k,
    {
        let ghost before = out@;
        assert(v@.take(k + 1).drop_last() == v@.take(k as int));
        if v[k] == '\'' {
            out.push('\'');
            out.push('\\');
            out.push('\'');
            out.push('\'');
            assert(out@ =~= before + seq!['\'', '\\', '\'', '\'']);
        } else {
            out.push(v[k]);
        }
        k += 1;
        assert(out@ =~= seq!['\''] + escaped(v@.take(k as int)));
    }
    assert(v@.take(v@.len() as int) == v@);
    out.push('\'');
    assert(out@ =~= seq!['\''] + escaped(arg@) + seq!['\'']);
    out
}

/// How a shell takes the next character.
pub enum Mode {
    /// Outside of quotes.
    Open,
    /// Between single quotes.
    Quotes,
    /// Behind a backslash.
    Backslash,
}

/// How far a shell has come in splitting a command line into words.
pub struct Reader {
    /// The words that are complete.
    pub words: Seq<Seq<char>>,
    /// The word that is being read.
    pub word: Option<Seq<char>>,
    pub mode: Mode,
    /// Whether every character so far had a literal meaning.
    pub literal: bool,
}

impl Reader {
    /// The reader at the start of a line.
    pub open spec fn start() -> Reader {
        Reader { words: Seq::empty(), word: None, mode: Mode::Open, literal: true }
    }

    /// The reader with the character at the end of the word.
    pub open spec fn taking(self, c: char) -> Reader {
        Reader {
            word: Some(
                match self.word {
                    Some(w) => w.push(c),
                    None => seq![c],
                },
            ),
            mode: Mode::Open,
            ..self
        }
    }

    /// The reader inside a word, which may be empty.
    pub open spec fn opening(self, mode: Mode) -> Reader {
        Reader {
            word: Some(
                match self.word {
                    Some(w) => w,
                    None => Seq::empty(),
                },
            ),
            mode,
            ..self
        }
    }

    /// The reader after one more character. Outside of quotes a space ends the
    /// word, and a character that is not plain has no literal meaning.
    pub open spec fn step(self, c: char) -> Reader {
        match self.mode {
            Mode::Open => if c == ' ' {
                match self.word {
                    Some(w) => Reader { words: self.words.push(w), word: None, ..self },
                    None => self,
                }
            } else if c == '\'' {
                self.opening(Mode::Quotes)
            } else if c == '\\' {
                self.opening(Mode::Backslash)
            } else if is_plain(c) {
                self.taking(c)
            } else {
                Reader { literal: false, ..self }
            },
            Mode::Quotes => if c == '\'' {
                Reader { mode: Mode::Open, ..self }
            } else {
                Reader { mode: Mode::Quotes, ..self.taking(c) }
            },
            Mode::Backslash => self.taking(c),
        }
    }

    /// The reader after the text.
    pub open spec fn after(self, s: Seq<char>) -> Reader
        decreases s.len(),
    {
        if s.len() == 0 {
            self
        } else {
            self.after(s.drop_last()).step(s.last())
        }
    }
}

/// The words that a shell reads in a command line, or `None` where a quote is
/// left open or a character has a meaning other than itself.
pub open spec fn shell_words(line: Seq<char>) -> Option<Seq<Seq<char>>> {
    let end = Reader::start().after(line);
    if !end.literal || end.mode !is Open {
        None
    } else {
        match end.word {
            Some(w) => Some(end.words.push(w)),
            None => Some(end.words),
        }
    }
}

proof fn lemma_after_concat(r: Reader, a: Seq<char>, b: Seq<char>)
    ensures
        r.after(a + b) == r.after(a).after(b),
    decreases b.len(),
{
    if b.len() == 0 {
        assert(a + b == a);
    } else {
        lemma_after_concat(r, a, b.drop_last());
        assert((a + b).drop_last() == a + b.drop_last());
        assert((a + b).last() == b.last());
    }
}

proof fn lemma_after_plain(r: Reader, s: Seq<char>)
    requires
        r.mode is Open,
        r.word is None,
        s.len() > 0,
        all_plain(s),
    ensures
        r.after(s) == (Reader { word: Some(s), ..r }),
    decreases s.len(),
{
    let t = s.drop_last();
    assert(s == t.push(s.last()));
    assert(is_plain(s[s.len() - 1]));
    if t.len() == 0 {
        assert(r.after(t) == r);
        assert(seq![s.last()] =~= s);
    } else {
        assert(all_plain(t)) by {
            assert forall|i: int| 0 <= i < t.len() implies is_plain(#[trigger] t[i]) by {
                assert(t[i] == s[i]);
            }
        }
        lemma_after_plain(r, t);
    }
}

proof fn lemma_after_escaped(r: Reader, w: Seq<char>, s: Seq<char>)
    requires
        r.mode is Quotes,
        r.word == Some(w),
    ensures
        r.after(escaped(s)) == (Reader { word: Some(w + s), ..r }),
    decreases s.len(),
{
    if s.len() == 0 {
        assert(w + s == w);
    } else {
        let t = s.drop_last();
        lemma_after_escaped(r, w, t);
        let mid = r.after(escaped(t));
        assert(w + s == (w + t).push(s.last()));
        if s.last() == '\'' {
            let esc = seq!['\'', '\\', '\'', '\''];
            lemma_after_concat(r, escaped(t), esc);
            assert(esc.drop_last() == seq!['\'', '\\', '\'']);
            assert(esc.drop_last().drop_last() == seq!['\'', '\\']);
            assert(esc.drop_last().drop_last().drop_last() == seq!['\'']);
            assert(esc.drop_last().drop_last().drop_last().drop_last().len() == 0);
            reveal_with_fuel(Reader::after, 5);
            assert(mid.after(esc) == mid.step('\'').step('\\').step('\'').step('\''));
        } else {
            assert(escaped(s).drop_last() == escaped(t));
            assert(escaped(s).last() == s.last());
        }
    }
}

proof fn lemma_after_quoted(r: Reader, arg: Seq<char>)
    requires
        r.mode is Open,
        r.word is None,
    ensures
        r.after(quoted(arg)) == (Reader { word: Some(arg), ..r }),
{
    if arg.len() > 0 && all_plain(arg) {
        lemma_after_plain(r, arg);
    } else {
        let q = seq!['\''];
        assert(q.drop_last().len() == 0);
        lemma_after_concat(r, q + escaped(arg), q);
        lemma_after_concat(r, q, escaped(arg));
        reveal_with_fuel(Reader::after, 2);
        assert(r.after(q) == r.step('\''));
        lemma_after_escaped(r.step('\''), Seq::empty(), arg);
        assert(Seq::<char>::empty() + arg == arg);
        let end = r.after(q + escaped(arg));
        assert(end.after(q) == end.step('\''));
    }
}

/// A shell reads a quoted argument as one word: the argument itself.
pub proof fn quoting_is_read_back(arg: Seq<char>)
    ensures
        shell_words(quoted(arg)) == Some(seq![arg]),
{
    lemma_after_quoted(Reader::start(), arg);
    assert(Seq::<Seq<char>>::empty().push(arg) =~= seq![arg]);
}

/// The words, each as it is written in a command line.
pub open spec fn quoted_each(words: Seq<Seq<char>>) -> Seq<Seq<char>> {
    words.map_values(|w: Seq<char>| quoted(w))
}

/// A shell reads a line of quoted words, with a space between neighbours, as those
/// words.
pub proof fn line_is_read_back(words: Seq<Seq<char>>)
    ensures
        shell_words(joined(quoted_each(words), seq![' '])) == Some(words),
{
    if words.len() == 0 {
        assert(words =~= Seq::empty());
    } else {
        lemma_after_line(words);
        assert(words.drop_last().push(words.last()) =~= words);
    }
}

proof fn lemma_after_line(words: Seq<Seq<char>>)
    requires
        words.len() > 0,
    ensures
        Reader::start().after(joined(quoted_each(words), seq![' '])) == (Reader {
            words: words.drop_last(),
            word: Some(words.last()),
            mode: Mode::Open,
            literal: true,
        }),
    decreases words.len(),
{
    let r0 = Reader::start();
    let written = quoted_each(words);
    if words.len() == 1 {
        lemma_after_quoted(r0, words[0]);
        assert(words.drop_last() =~= Seq::empty());
    } else {
        let b = words.drop_last();
        lemma_after_line(b);
        assert(written.drop_last() =~= quoted_each(b));
        let space = seq![' '];
        let head = joined(quoted_each(b), space);
        lemma_after_concat(r0, head + space, written.last());
        lemma_after_concat(r0, head, space);
        let r1 = r0.after(head);
        assert(space.drop_last().len() == 0);
        reveal_with_fuel(Reader::after, 2);
        let r2 = r1.after(space);
        assert(r2 == r1.step(' '));
        assert(b.drop_last().push(b.last()) =~= b);
        lemma_after_quoted(r2, words.last());
    }
}

} // verus!
