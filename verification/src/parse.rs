//! Reading text: lines, splitting at a character, whitespace-separated words,
//! prefixes, and unsigned decimal numbers, each stated over `Seq<char>`.

use vstd::prelude::*;
use crate::text::{owned, push_char, is_white_space};

verus! {

/// The pieces of `s` between occurrences of `sep` (`str::split` with a
/// character): one more piece than there are separators.
pub open spec fn split_pieces(s: Seq<char>, sep: char) -> Seq<Seq<char>>
    decreases s.len(),
{
    if s.len() == 0 {
        seq![Seq::empty()]
    } else {
        let rest = split_pieces(s.drop_last(), sep);
        if s.last() == sep {
            rest.push(Seq::empty())
        } else {
            rest.update(rest.len() - 1, rest.last().push(s.last()))
        }
    }
}

proof fn lemma_split_pieces_nonempty(s: Seq<char>, sep: char)
    ensures
        split_pieces(s, sep).len() >= 1,
    decreases s.len(),
{
    if s.len() > 0 {
        lemma_split_pieces_nonempty(s.drop_last(), sep);
    }
}

/// Splits `s` at every `sep`.
pub fn split_at_char(s: &str, sep: char) -> (r: Vec<String>)
    ensures
        r.deep_view() == split_pieces(s@, sep),
{
    let mut done: Vec<String> = Vec::new();
    let mut current = String::new();
    for c in it: s.chars()
        invariant
            it.seq() == s@,
            done.deep_view().push(current@) == split_pieces(it.seq().take(it.index() as int), sep),
    {
        let ghost before = it.seq().take(it.index() as int);
        let ghost after = it.seq().take(it.index() + 1);
        proof {
            assert(after.drop_last() =~= before);
            assert(after.last() == c);
            lemma_split_pieces_nonempty(before, sep);
        }
        if c == sep {
            let finished = current;
            done.push(finished);
            current = String::new();
            proof {
                assert(done.deep_view().push(current@) =~= split_pieces(after, sep));
            }
        } else {
            let ghost old_current = current@;
            push_char(&mut current, c);
            proof {
                assert(done.deep_view().push(current@) =~= split_pieces(after, sep));
            }
        }
    }
    proof { assert(s@.take(s@.len() as int) =~= s@); }
    let ghost pieces = done.deep_view().push(current@);
    done.push(current);
    proof { assert(done.deep_view() =~= pieces); }
    done
}

/// `l` without one trailing carriage return.
pub open spec fn strip_cr(l: Seq<char>) -> Seq<char> {
    if l.len() > 0 && l.last() == '\r' {
        l.drop_last()
    } else {
        l
    }
}

/// The lines of `s` (`str::lines`): split at `\n`, each line that ended with
/// `\n` loses one trailing `\r`, and an empty last piece is no line.
pub open spec fn text_lines(s: Seq<char>) -> Seq<Seq<char>> {
    let pieces = split_pieces(s, '\n');
    let body = pieces.drop_last().map_values(|l: Seq<char>| strip_cr(l));
    if pieces.last().len() == 0 {
        body
    } else {
        body.push(pieces.last())
    }
}

fn strip_cr_string(l: &str) -> (r: String)
    ensures
        r@ == strip_cr(l@),
{
    let n = l.unicode_len();
    if n > 0 && l.get_char(n - 1) == '\r' {
        let inner = l.substring_char(0, n - 1);
        proof { assert(inner@ =~= l@.drop_last()); }
        owned(inner)
    } else {
        owned(l)
    }
}

/// The lines of `s`.
pub fn lines_of(s: &str) -> (r: Vec<String>)
    ensures
        r.deep_view() == text_lines(s@),
{
    let pieces = split_at_char(s, '\n');
    proof { lemma_split_pieces_nonempty(s@, '\n'); }
    let n = pieces.len();
    let mut r: Vec<String> = Vec::new();
    let mut i: usize = 0;
    while i + 1 < n
        invariant
            pieces.deep_view() == split_pieces(s@, '\n'),
            n == pieces@.len(),
            n >= 1,
            i + 1 <= n,
            r.deep_view() == split_pieces(s@, '\n').take(i as int).map_values(|l: Seq<char>| strip_cr(l)),
        decreases n - i,
    {
        let line = strip_cr_string(pieces[i].as_str());
        let ghost before = r.deep_view();
        r.push(line);
        proof {
            assert(pieces.deep_view()[i as int] == pieces@[i as int]@);
            assert(r.deep_view() =~= before.push(line@));
            assert(split_pieces(s@, '\n').take(i + 1) =~= split_pieces(s@, '\n').take(i as int).push(split_pieces(s@, '\n')[i as int]));
            assert(r.deep_view() =~= split_pieces(s@, '\n').take(i + 1).map_values(|l: Seq<char>| strip_cr(l)));
        }
        i = i + 1;
    }
    proof {
        assert(split_pieces(s@, '\n').take(n - 1) =~= split_pieces(s@, '\n').drop_last());
        assert(pieces.deep_view()[n - 1] == pieces@[n - 1]@);
    }
    if pieces[n - 1].unicode_len() > 0 {
        let last = pieces[n - 1].clone();
        let ghost before = r.deep_view();
        r.push(last);
        proof { assert(r.deep_view() =~= before.push(last@)); }
    }
    r
}

/// Position of the first `c` in `s`.
pub open spec fn first_index_of(s: Seq<char>, c: char) -> Option<int>
    decreases s.len(),
{
    if s.len() == 0 {
        None
    } else {
        match first_index_of(s.drop_last(), c) {
            Some(i) => Some(i),
            None => if s.last() == c {
                Some(s.len() - 1)
            } else {
                None
            },
        }
    }
}

pub proof fn lemma_first_index_of(s: Seq<char>, c: char)
    ensures
        first_index_of(s, c) matches Some(i) ==> 0 <= i < s.len() && s[i] == c && forall|j: int| 0 <= j < i ==> s[j] != c,
        first_index_of(s, c) is None ==> forall|j: int| 0 <= j < s.len() ==> s[j] != c,
    decreases s.len(),
{
    if s.len() > 0 {
        lemma_first_index_of(s.drop_last(), c);
        assert(forall|j: int| 0 <= j < s.len() - 1 ==> s.drop_last()[j] == s[j]);
    }
}

/// `s` split at its first `sep` (`str::split_once`).
pub open spec fn split_once_spec(s: Seq<char>, sep: char) -> Option<(Seq<char>, Seq<char>)> {
    match first_index_of(s, sep) {
        Some(i) => Some((s.take(i), s.skip(i + 1))),
        None => None,
    }
}

/// Splits `s` at its first `sep`.
pub fn split_once_at(s: &str, sep: char) -> (r: Option<(String, String)>)
    ensures
        match r {
            Some((a, b)) => split_once_spec(s@, sep) == Some((a@, b@)),
            None => split_once_spec(s@, sep) is None,
        },
{
    let n = s.unicode_len();
    let mut i: usize = 0;
    while i < n
        invariant
            n == s@.len(),
            i <= n,
            forall|j: int| 0 <= j < i ==> s@[j] != sep,
        decreases n - i,
    {
        if s.get_char(i) == sep {
            proof {
                lemma_first_index_of(s@, sep);
                assert(first_index_of(s@, sep) == Some(i as int));
            }
            let a = owned(s.substring_char(0, i));
            let b = owned(s.substring_char(i + 1, n));
            proof {
                assert(a@ =~= s@.take(i as int));
                assert(b@ =~= s@.skip(i + 1));
            }
            return Some((a, b));
        }
        i = i + 1;
    }
    proof { lemma_first_index_of(s@, sep); }
    None
}

/// `s` without the prefix `p`, when it starts with it (`str::strip_prefix`).
pub open spec fn strip_prefix_spec(s: Seq<char>, p: Seq<char>) -> Option<Seq<char>> {
    if p.len() <= s.len() && s.take(p.len() as int) == p {
        Some(s.skip(p.len() as int))
    } else {
        None
    }
}

/// Removes the prefix `p` from `s`, when `s` starts with it.
pub fn strip_prefix_of(s: &str, p: &str) -> (r: Option<String>)
    ensures
        match r {
            Some(rest) => strip_prefix_spec(s@, p@) == Some(rest@),
            None => strip_prefix_spec(s@, p@) is None,
        },
{
    let n = s.unicode_len();
    let m = p.unicode_len();
    if m > n {
        return None;
    }
    let mut i: usize = 0;
    while i < m
        invariant
            n == s@.len(),
            m == p@.len(),
            m <= n,
            i <= m,
            forall|j: int| 0 <= j < i ==> s@[j] == p@[j],
        decreases m - i,
    {
        if s.get_char(i) != p.get_char(i) {
            proof { assert(s@.take(m as int)[i as int] != p@[i as int]); }
            return None;
        }
        i = i + 1;
    }
    proof { assert(s@.take(m as int) =~= p@); }
    let rest = owned(s.substring_char(m, n));
    proof { assert(rest@ =~= s@.skip(m as int)); }
    Some(rest)
}

/// The whitespace-separated words of `s` (`str::split_whitespace`).
pub open spec fn words_of(s: Seq<char>) -> Seq<Seq<char>>
    decreases s.len(),
{
    words_with_open(s).0
}

/// The words of `s`, and whether the last one is still open (no white space
/// after it yet).
pub open spec fn words_with_open(s: Seq<char>) -> (Seq<Seq<char>>, bool)
    decreases s.len(),
{
    if s.len() == 0 {
        (Seq::empty(), false)
    } else {
        let (ws, open) = words_with_open(s.drop_last());
        let c = s.last();
        if is_white_space(c) {
            (ws, false)
        } else if open {
            (ws.update(ws.len() - 1, ws.last().push(c)), true)
        } else {
            (ws.push(seq![c]), true)
        }
    }
}

proof fn lemma_words_open_nonempty(s: Seq<char>)
    ensures
        words_with_open(s).1 ==> words_with_open(s).0.len() >= 1,
    decreases s.len(),
{
    if s.len() > 0 {
        lemma_words_open_nonempty(s.drop_last());
    }
}

/// Splits `s` into its whitespace-separated words.
pub fn split_words(s: &str) -> (r: Vec<String>)
    ensures
        r.deep_view() == words_of(s@),
{
    let mut done: Vec<String> = Vec::new();
    let mut current = String::new();
    let mut open = false;
    for c in it: s.chars()
        invariant
            it.seq() == s@,
            open == words_with_open(it.seq().take(it.index() as int)).1,
            !open ==> current@ == Seq::<char>::empty() && done.deep_view() == words_with_open(it.seq().take(it.index() as int)).0,
            open ==> done.deep_view().push(current@) == words_with_open(it.seq().take(it.index() as int)).0,
    {
        let ghost before = it.seq().take(it.index() as int);
        let ghost after = it.seq().take(it.index() + 1);
        proof {
            assert(after.drop_last() =~= before);
            assert(after.last() == c);
            lemma_words_open_nonempty(before);
        }
        if crate::text::white_space(c) {
            if open {
                let finished = current;
                done.push(finished);
                current = String::new();
                open = false;
                proof { assert(done.deep_view() =~= words_with_open(after).0); }
            }
        } else {
            push_char(&mut current, c);
            proof {
                if open {
                    assert(done.deep_view().push(current@) =~= words_with_open(after).0);
                } else {
                    assert(current@ =~= seq![c]);
                    assert(done.deep_view().push(current@) =~= words_with_open(after).0);
                }
            }
            open = true;
        }
    }
    proof { assert(s@.take(s@.len() as int) =~= s@); }
    if open {
        let ghost all = done.deep_view().push(current@);
        done.push(current);
        proof { assert(done.deep_view() =~= all); }
    }
    done
}

/// ASCII digits.
pub open spec fn is_digit(c: char) -> bool {
    '0' <= c <= '9'
}

/// The value of a string of ASCII digits.
pub open spec fn digits_value(s: Seq<char>) -> nat
    decreases s.len(),
{
    if s.len() == 0 {
        0
    } else {
        digits_value(s.drop_last()) * 10 + ((s.last() as u32) - 48) as nat
    }
}

/// Every character is an ASCII digit.
pub open spec fn all_digits(s: Seq<char>) -> bool {
    forall|i: int| 0 <= i < s.len() ==> is_digit(#[trigger] s[i])
}

/// What `usize::from_str` gives: an optional `+`, then one or more ASCII
/// digits whose value fits.
pub open spec fn parse_usize_spec(s: Seq<char>) -> Option<usize> {
    let body = if s.len() > 0 && s[0] == '+' {
        s.drop_first()
    } else {
        s
    };
    if body.len() > 0 && all_digits(body) && digits_value(body) <= usize::MAX {
        Some(digits_value(body) as usize)
    } else {
        None
    }
}

/// What `u32::from_str` gives on a string of ASCII digits.
pub open spec fn parse_u32_digits(s: Seq<char>) -> Option<u32> {
    if s.len() > 0 && all_digits(s) && digits_value(s) <= u32::MAX {
        Some(digits_value(s) as u32)
    } else {
        None
    }
}

pub(crate) proof fn lemma_digits_value_grows(s: Seq<char>, k: int)
    requires
        0 <= k <= s.len(),
        all_digits(s),
    ensures
        digits_value(s.take(k)) <= digits_value(s),
    decreases s.len() - k,
{
    if k < s.len() {
        lemma_digits_value_grows(s, k + 1);
        assert(s.take(k + 1).drop_last() =~= s.take(k));
        assert(digits_value(s.take(k + 1)) == digits_value(s.take(k)) * 10 + ((s[k] as u32) - 48) as nat);
    } else {
        assert(s.take(k) =~= s);
    }
}

/// Parses an unsigned number as `usize::from_str` does.
pub fn parse_usize(s: &str) -> (r: Option<usize>)
    ensures
        r == parse_usize_spec(s@),
{
    let n = s.unicode_len();
    let mut start: usize = 0;
    if n > 0 && s.get_char(0) == '+' {
        start = 1;
    }
    let ghost body = if s@.len() > 0 && s@[0] == '+' { s@.drop_first() } else { s@ };
    proof { assert(body =~= s@.skip(start as int)); }
    if start >= n {
        return None;
    }
    let mut value: usize = 0;
    let mut i: usize = start;
    while i < n
        invariant
            n == s@.len(),
            start <= i <= n,
            body == s@.skip(start as int),
            body == (if s@.len() > 0 && s@[0] == '+' { s@.drop_first() } else { s@ }),
            body.len() > 0,
            all_digits(body.take(i - start)),
            value as nat == digits_value(body.take(i - start)),
        decreases n - i,
    {
        let c = s.get_char(i);
        let ghost prefix = body.take(i - start);
        let ghost next = body.take(i - start + 1);
        proof {
            assert(next.drop_last() =~= prefix);
            assert(next.last() == c);
        }
        proof { assert(body[i - start] == s@[i as int]); }
        if !('0' <= c && c <= '9') {
            proof { assert(!is_digit(body[i - start])); }
            return None;
        }
        let d = ((c as u32) - 48) as usize;
        proof {
            assert(all_digits(next));
            assert(digits_value(next) == value * 10 + d);
        }
        match value.checked_mul(10) {
            None => {
                proof {
                    assert(all_digits(next));
                    if all_digits(body) {
                        lemma_digits_value_grows(body, i - start + 1);
                    }
                }
                return None;
            },
            Some(tens) => match tens.checked_add(d) {
                None => {
                    proof {
                        if all_digits(body) {
                            lemma_digits_value_grows(body, i - start + 1);
                        }
                    }
                    return None;
                },
                Some(v) => {
                    value = v;
                },
            },
        }
        i = i + 1;
    }
    proof { assert(body.take(n - start) =~= body); }
    Some(value)
}

} // verus!
