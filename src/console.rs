//! The commands of the interactive driver: `start N`, `propose ID VALUE`,
//! `query ID` and `exit`, each with a one-letter short form.

use std::collections::HashSet;
use vstd::prelude::*;

verus! {

broadcast use vstd::std_specs::hash::group_hash_axioms;

/// A driver command.
#[derive(Debug, Clone, Copy, PartialEq, Eq, Structural)]
pub enum Command {
    /// Launch this many replicas.
    Start(usize),
    /// Ask replica `.0` to propose value `.1`.
    Propose(usize, u32),
    /// Ask replica `.0` for the chosen value.
    Query(usize),
    Exit,
}

/// The line is not a command.
#[derive(Debug, Clone, Copy, PartialEq, Eq, Structural)]
pub struct ParseCommandError;

/// The characters of each word.
pub open spec fn words_view(words: Seq<String>) -> Seq<Seq<char>> {
    words.map_values(|w: String| w@)
}

/// What `str::to_lowercase` returns for `s`.
pub uninterp spec fn lowercase_of(s: Seq<char>) -> Seq<char>;

/// What `str::split_whitespace` yields for `s`.
pub uninterp spec fn words_of(s: Seq<char>) -> Seq<Seq<char>>;

/// Relies on `str::to_lowercase`: the lower-case form of `s`, which depends
/// on its characters alone.
#[verifier::external_body]
fn to_lowercase(s: &str) -> (r: String)
    ensures
        r@ == lowercase_of(s@),
{
    s.to_lowercase()
}

/// Relies on `str::split_whitespace`: the words of `s` between runs of
/// white space, in order, which depend on its characters alone.
#[verifier::external_body]
fn split_whitespace(s: &str) -> (r: Vec<String>)
    ensures
        words_view(r@) == words_of(s@),
{
    s.split_whitespace().map(String::from).collect()
}

pub open spec fn is_digit(c: char) -> bool {
    '0' <= c <= '9'
}

/// The number that the decimal digits `s` write.
pub open spec fn decimal_value(s: Seq<char>) -> nat
    decreases s.len(),
{
    if s.len() == 0 {
        0
    } else {
        decimal_value(s.drop_last()) * 10 + (s.last() as nat - '0' as nat) as nat
    }
}

/// The number that `s` writes in decimal, after an optional `+`, where it is
/// at most `max`.
pub open spec fn number_of(s: Seq<char>, max: nat) -> Option<nat> {
    let t = unsigned_part(s);
    if t.len() > 0 && all_digits(t) && decimal_value(t) <= max {
        Some(decimal_value(t))
    } else {
        None
    }
}

/// `s` without its leading `+`, if it has one.
pub open spec fn unsigned_part(s: Seq<char>) -> Seq<char> {
    if s.len() > 0 && s[0] == '+' {
        s.drop_first()
    } else {
        s
    }
}

pub open spec fn all_digits(t: Seq<char>) -> bool {
    forall|i: int| 0 <= i < t.len() ==> is_digit(#[trigger] t[i])
}

/// The `i`-th word of `words` as a number of at most `max`.
pub open spec fn number_arg(words: Seq<Seq<char>>, i: int, max: nat) -> Option<nat> {
    if i < words.len() {
        number_of(words[i], max)
    } else {
        None
    }
}

/// The command that the lower-case words `words` spell; words after the
/// last argument are ignored.
pub open spec fn command_of(words: Seq<Seq<char>>) -> Result<Command, ParseCommandError> {
    if words.len() == 0 {
        Err(ParseCommandError)
    } else {
        let w = words[0];
        if w == seq!['s'] || w == seq!['s', 't', 'a', 'r', 't'] {
            match number_arg(words, 1, usize::MAX as nat) {
                Some(n) => Ok(Command::Start(n as usize)),
                None => Err(ParseCommandError),
            }
        } else if w == seq!['p'] || w == seq!['p', 'r', 'o', 'p', 'o', 's', 'e'] {
            match (number_arg(words, 1, usize::MAX as nat), number_arg(words, 2, u32::MAX as nat)) {
                (Some(id), Some(v)) => Ok(Command::Propose(id as usize, v as u32)),
                _ => Err(ParseCommandError),
            }
        } else if w == seq!['q'] || w == seq!['q', 'u', 'e', 'r', 'y'] {
            match number_arg(words, 1, usize::MAX as nat) {
                Some(id) => Ok(Command::Query(id as usize)),
                None => Err(ParseCommandError),
            }
        } else if w == seq!['x'] || w == seq!['e', 'x', 'i', 't'] {
            Ok(Command::Exit)
        } else {
            Err(ParseCommandError)
        }
    }
}

proof fn lemma_decimal_value_grows(t: Seq<char>, k: nat)
    requires
        k <= t.len(),
        all_digits(t),
    ensures
        decimal_value(t.take(k as int)) <= decimal_value(t),
    decreases t.len() - k,
{
    if k < t.len() {
        lemma_decimal_value_grows(t, k + 1);
        let p = t.take(k + 1 as int);
        assert(p.drop_last() =~= t.take(k as int));
        assert(is_digit(t[k as int]));
    } else {
        assert(t.take(k as int) =~= t);
    }
}

/// The characters of `s`.
fn chars_of(s: &str) -> (r: Vec<char>)
    ensures
        r@ == s@,
{
    let mut r: Vec<char> = Vec::new();
    for c in it: s.chars()
        invariant
            it.seq() == s@,
            r@ == it.seq().take(it.index() as int),
    {
        r.push(c);
        assert(r@ =~= it.seq().take(it.index() + 1));
    }
    assert(r@ =~= s@);
    r
}

/// The number that the word `s` writes in decimal, where it is at most `max`.
fn parse_number(s: &str, max: u64) -> (r: Option<u64>)
    ensures
        r == (match number_of(s@, max as nat) {
            Some(v) => Some(v as u64),
            None => None,
        }),
{
    let cs = chars_of(s);
    let start: usize = if cs.len() > 0 && cs[0] == '+' {
        1
    } else {
        0
    };
    let ghost t = cs@.subrange(start as int, cs@.len() as int);
    assert(t =~= unsigned_part(s@));
    if start == cs.len() {
        return None;
    }
    let mut acc: u64 = 0;
    let mut i: usize = start;
    while i < cs.len()
        invariant
            start <= i <= cs@.len(),
            t == cs@.subrange(start as int, cs@.len() as int),
            cs@ == s@,
            t == unsigned_part(s@),
            forall|j: int| start <= j < i ==> is_digit(#[trigger] cs@[j]),
            acc as nat == decimal_value(cs@.subrange(start as int, i as int)),
            acc <= max,
        decreases cs.len() - i,
    {
        let c = cs[i];
        let ghost prefix = cs@.subrange(start as int, i + 1);
        assert(prefix.drop_last() =~= cs@.subrange(start as int, i as int));
        if c < '0' || c > '9' {
            assert(!is_digit(t[i - start]));
            assert(!all_digits(t));
            return None;
        }
        let d = (c as u32 - '0' as u32) as u64;
        if d > max || acc > (max - d) / 10 {
            assert(decimal_value(prefix) > max) by (nonlinear_arith)
                requires
                    decimal_value(prefix) == acc * 10 + d,
                    d > max || acc > (max - d) / 10,
            ;
            proof {
                if all_digits(t) {
                    lemma_decimal_value_grows(t, (i + 1 - start) as nat);
                    assert(t.take(i + 1 - start) =~= prefix);
                }
            }
            return None;
        }
        acc = acc * 10 + d;
        i = i + 1;
    }
    assert(cs@.subrange(start as int, i as int) =~= t);
    Some(acc)
}


/// Whether the characters `cs` are those of `lit`.
fn is_word(cs: &Vec<char>, lit: &[char]) -> (r: bool)
    ensures
        r == (cs@ == lit@),
{
    if cs.len() != lit.len() {
        return false;
    }
    let mut i: usize = 0;
    while i < cs.len()
        invariant
            cs@.len() == lit@.len(),
            i <= cs@.len(),
            forall|j: int| 0 <= j < i ==> cs@[j] == lit@[j],
        decreases cs.len() - i,
    {
        if cs[i] != lit[i] {
            return false;
        }
        i = i + 1;
    }
    assert(cs@ =~= lit@);
    true
}

/// The `i`-th word as a number of at most `max`.
fn number_at(words: &Vec<String>, i: usize, max: u64) -> (r: Option<u64>)
    ensures
        r == (match number_arg(words_view(words@), i as int, max as nat) {
            Some(v) => Some(v as u64),
            None => None,
        }),
{
    if i < words.len() {
        parse_number(words[i].as_str(), max)
    } else {
        None
    }
}

/// The `i`-th word as a replica id or a count.
fn id_at(words: &Vec<String>, i: usize) -> (r: Option<usize>)
    ensures
        r == (match number_arg(words_view(words@), i as int, usize::MAX as nat) {
            Some(v) => Some(v as usize),
            None => None,
        }),
{
    match number_at(words, i, usize::MAX as u64) {
        Some(v) => {
            assert(v <= usize::MAX);
            Some(v as usize)
        },
        None => None,
    }
}

impl Command {
    /// The command that the lower-case words `words` spell.
    pub fn parse_words(words: &Vec<String>) -> (r: Result<Command, ParseCommandError>)
        ensures
            r == command_of(words_view(words@)),
    {
        let ghost ws = words_view(words@);
        if words.len() == 0 {
            return Err(ParseCommandError);
        }
        let w = chars_of(words[0].as_str());
        assert(w@ == ws[0]);
        let (s_short, s_long): (&[char], &[char]) = (&['s'], &['s', 't', 'a', 'r', 't']);
        let (p_short, p_long): (&[char], &[char]) = (&['p'], &['p', 'r', 'o', 'p', 'o', 's', 'e']);
        let (q_short, q_long): (&[char], &[char]) = (&['q'], &['q', 'u', 'e', 'r', 'y']);
        let (x_short, x_long): (&[char], &[char]) = (&['x'], &['e', 'x', 'i', 't']);
        assert(s_short@ =~= seq!['s'] && s_long@ =~= seq!['s', 't', 'a', 'r', 't']);
        assert(p_short@ =~= seq!['p'] && p_long@ =~= seq!['p', 'r', 'o', 'p', 'o', 's', 'e']);
        assert(q_short@ =~= seq!['q'] && q_long@ =~= seq!['q', 'u', 'e', 'r', 'y']);
        assert(x_short@ =~= seq!['x'] && x_long@ =~= seq!['e', 'x', 'i', 't']);
        if is_word(&w, s_short) || is_word(&w, s_long) {
            match id_at(words, 1) {
                Some(n) => Ok(Command::Start(n)),
                None => Err(ParseCommandError),
            }
        } else if is_word(&w, p_short) || is_word(&w, p_long) {
            match (id_at(words, 1), number_at(words, 2, u32::MAX as u64)) {
                (Some(id), Some(v)) => Ok(Command::Propose(id, v as u32)),
                _ => Err(ParseCommandError),
            }
        } else if is_word(&w, q_short) || is_word(&w, q_long) {
            match id_at(words, 1) {
                Some(id) => Ok(Command::Query(id)),
                None => Err(ParseCommandError),
            }
        } else if is_word(&w, x_short) || is_word(&w, x_long) {
            Ok(Command::Exit)
        } else {
            Err(ParseCommandError)
        }
    }

    /// The command on the line `s`, read without regard to case.
    pub fn parse(s: &str) -> (r: Result<Command, ParseCommandError>)
        ensures
            r == command_of(words_of(lowercase_of(s@))),
    {
        let lower = to_lowercase(s);
        let words = split_whitespace(lower.as_str());
        Command::parse_words(&words)
    }
}

impl std::str::FromStr for Command {
    type Err = ParseCommandError;

    fn from_str(s: &str) -> (r: Result<Command, ParseCommandError>)
        ensures
            r == command_of(words_of(lowercase_of(s@))),
    {
        Command::parse(s)
    }
}


/// The ids of the replicas of a cluster of `n`: `1` to `n`, as `0` is the
/// client's.
pub fn replica_ids(n: usize) -> (r: HashSet<usize>)
    ensures
        r@ == Set::new(|i: usize| 1 <= i <= n),
{
    let mut r: HashSet<usize> = HashSet::new();
    let mut i: usize = 0;
    while i < n
        invariant
            i <= n,
            r@ == Set::new(|k: usize| 1 <= k <= i),
        decreases n - i,
    {
        i = i + 1;
        r.insert(i);
        assert(r@ =~= Set::new(|k: usize| 1 <= k <= i));
    }
    r
}

/// The port that replica `id` listens on, `base_port + id`, where it is one.
pub fn replica_port(base_port: u16, id: usize) -> (r: Option<u16>)
    ensures
        r == (if base_port + id <= u16::MAX {
            Some((base_port + id) as u16)
        } else {
            None
        }),
{
    if id <= (u16::MAX - base_port) as usize {
        Some(base_port + id as u16)
    } else {
        None
    }
}

} // verus!
