//! Text building blocks: decimal rendering, shell quoting, joining and
//! trimming, each stated over `Seq<char>`.

use vstd::prelude::*;
use vstd::utf8::encode_utf8;

verus! {

/// Appends one character to a string with std's `String::push`; the
/// contract, taken on trust, is that the string's characters afterwards are
/// the old ones followed by `c`.
#[verifier::external_body]
pub(crate) fn push_char(s: &mut String, c: char)
    ensures
        final(s)@ == old(s)@.push(c),
{
    s.push(c);
}

/// A fresh string holding the characters of `lit`.
pub fn owned(lit: &str) -> (r: String)
    ensures
        r@ == lit@,
{
    let mut r = String::new();
    r.append(lit);
    proof { assert(r@ =~= lit@); }
    r
}

/// The ASCII digit for `d < 10`.
pub open spec fn digit_char(d: nat) -> char {
    ((d + 48) as u32) as char
}

/// Decimal rendering of a natural number, without leading zeros.
pub open spec fn decimal(n: nat) -> Seq<char>
    decreases n,
{
    if n < 10 {
        seq![digit_char(n)]
    } else {
        decimal(n / 10).push(digit_char(n % 10))
    }
}

/// Decimal rendering of a signed number: a minus sign before the magnitude.
pub open spec fn signed_decimal(n: int) -> Seq<char> {
    if n < 0 {
        seq!['-'] + decimal((-n) as nat)
    } else {
        decimal(n as nat)
    }
}

fn digit(d: usize) -> (c: char)
    requires
        d < 10,
    ensures
        c == digit_char(d as nat),
{
    ((d as u8) + 48u8) as char
}

/// Appends the decimal rendering of `n`.
pub fn push_decimal(s: &mut String, n: usize)
    ensures
        final(s)@ == old(s)@ + decimal(n as nat),
    decreases n,
{
    if n >= 10 {
        push_decimal(s, n / 10);
        push_char(s, digit(n % 10));
        proof {
            assert(final(s)@ =~= old(s)@ + decimal(n as nat));
        }
    } else {
        push_char(s, digit(n));
        proof {
            assert(final(s)@ =~= old(s)@ + decimal(n as nat));
        }
    }
}

/// The decimal rendering of `n` as a string.
pub fn decimal_string(n: usize) -> (r: String)
    ensures
        r@ == decimal(n as nat),
{
    let mut r = String::new();
    push_decimal(&mut r, n);
    proof { assert(r@ =~= decimal(n as nat)); }
    r
}

/// Appends the decimal rendering of a signed 32-bit number.
pub fn push_signed_decimal(s: &mut String, n: i32)
    ensures
        final(s)@ == old(s)@ + signed_decimal(n as int),
{
    if n < 0 {
        push_char(s, '-');
        let magnitude: i64 = -(n as i64);
        push_decimal(s, magnitude as usize);
        proof {
            assert(final(s)@ =~= old(s)@ + signed_decimal(n as int));
        }
    } else {
        push_decimal(s, n as usize);
    }
}

/// Bytes that a shell word may hold unquoted.
pub open spec fn is_shell_safe_byte(b: u8) -> bool {
    ||| 48 <= b <= 57
    ||| 65 <= b <= 90
    ||| 97 <= b <= 122
    ||| b == 45 /* - */ || b == 95 /* _ */ || b == 46 /* . */
    ||| b == 47 /* / */ || b == 58 /* : */ || b == 61 /* = */
}

/// Every UTF-8 byte of `s` is shell-safe.
pub open spec fn all_shell_safe(s: Seq<char>) -> bool {
    forall|i: int| 0 <= i < encode_utf8(s).len() ==> is_shell_safe_byte(#[trigger] encode_utf8(s)[i])
}

/// A single quote becomes `'\''` inside single quotes; other characters stay.
pub open spec fn escape_quotes(s: Seq<char>) -> Seq<char>
    decreases s.len(),
{
    if s.len() == 0 {
        Seq::empty()
    } else {
        let last = s.last();
        escape_quotes(s.drop_last()) + (if last == '\'' {
            seq!['\'', '\\', '\'', '\'']
        } else {
            seq![last]
        })
    }
}

/// The shell word that stands for `s`: `s` itself when every byte is safe,
/// else `s` in single quotes with embedded quotes escaped.
pub open spec fn shell_quote(s: Seq<char>) -> Seq<char> {
    if all_shell_safe(s) {
        s
    } else {
        seq!['\''] + escape_quotes(s) + seq!['\'']
    }
}

fn shell_safe_byte(b: u8) -> (r: bool)
    ensures
        r == is_shell_safe_byte(b),
{
    (48 <= b && b <= 57) || (65 <= b && b <= 90) || (97 <= b && b <= 122) || b == 45 || b == 95
        || b == 46 || b == 47 || b == 58 || b == 61
}

/// Quotes `value` for a POSIX shell.
pub fn quote_for_shell(value: &str) -> (r: String)
    ensures
        r@ == shell_quote(value@),
{
    let bytes = value.as_bytes();
    let n = bytes.len();
    let mut safe = true;
    let mut i: usize = 0;
    while i < n
        invariant
            n == bytes@.len(),
            bytes@ == encode_utf8(value@),
            i <= n,
            safe <==> (forall|j: int| 0 <= j < i ==> is_shell_safe_byte(#[trigger] bytes@[j])),
        decreases n - i,
    {
        if !shell_safe_byte(bytes[i]) {
            safe = false;
        }
        i = i + 1;
    }
    if safe {
        return owned(value);
    }
    let mut out = String::new();
    push_char(&mut out, '\'');
    let ghost start = out@;
    for c in it: value.chars()
        invariant
            it.seq() == value@,
            start == seq!['\''],
            out@ == start + escape_quotes(it.seq().take(it.index() as int)),
    {
        let ghost before = it.seq().take(it.index() as int);
        if c == '\'' {
            out.append("'\\''");
            proof { reveal_strlit("'\\''"); }
        } else {
            push_char(&mut out, c);
        }
        proof {
            let after = it.seq().take(it.index() + 1);
            assert(after.drop_last() =~= before);
            assert(after.last() == c);
            assert(out@ =~= start + escape_quotes(after));
        }
    }
    push_char(&mut out, '\'');
    proof {
        assert(value@.take(value@.len() as int) =~= value@);
        assert(out@ =~= shell_quote(value@));
    }
    out
}

/// Words joined by single spaces.
pub open spec fn join_spaced(words: Seq<Seq<char>>) -> Seq<char>
    decreases words.len(),
{
    if words.len() == 0 {
        Seq::empty()
    } else if words.len() == 1 {
        words[0]
    } else {
        join_spaced(words.drop_last()) + seq![' '] + words.last()
    }
}

/// Words joined by a separator.
pub open spec fn join_with(words: Seq<Seq<char>>, sep: Seq<char>) -> Seq<char>
    decreases words.len(),
{
    if words.len() == 0 {
        Seq::empty()
    } else if words.len() == 1 {
        words[0]
    } else {
        join_with(words.drop_last(), sep) + sep + words.last()
    }
}

/// Joins the strings in `words` with `sep` between neighbours.
pub fn join_strings(words: &Vec<String>, sep: &str) -> (r: String)
    ensures
        r@ == join_with(words.deep_view(), sep@),
{
    let mut out = String::new();
    let n = words.len();
    let mut i: usize = 0;
    while i < n
        invariant
            n == words@.len(),
            i <= n,
            out@ == join_with(words.deep_view().take(i as int), sep@),
        decreases n - i,
    {
        let ghost before = words.deep_view().take(i as int);
        if i > 0 {
            out.append(sep);
        }
        out.append(words[i].as_str());
        proof {
            let after = words.deep_view().take(i + 1);
            assert(after.drop_last() =~= before);
            assert(after.last() == words@[i as int]@);
            if i == 0 {
                assert(out@ =~= join_with(after, sep@));
            } else {
                assert(out@ =~= join_with(after, sep@));
            }
        }
        i = i + 1;
    }
    proof { assert(words.deep_view().take(n as int) =~= words.deep_view()); }
    out
}

/// Character-wise equality of two strings.
pub fn str_equal(a: &str, b: &str) -> (r: bool)
    ensures
        r == (a@ == b@),
{
    let n = a.unicode_len();
    if n != b.unicode_len() {
        return false;
    }
    let mut i: usize = 0;
    while i < n
        invariant
            n == a@.len(),
            n == b@.len(),
            i <= n,
            forall|j: int| 0 <= j < i ==> a@[j] == b@[j],
        decreases n - i,
    {
        if a.get_char(i) != b.get_char(i) {
            return false;
        }
        i = i + 1;
    }
    proof { assert(a@ =~= b@); }
    true
}

/// The characters that `char::is_whitespace` accepts (Unicode `White_Space`).
pub open spec fn is_white_space(c: char) -> bool {
    let u = c as u32;
    ||| 9 <= u <= 13
    ||| u == 32 || u == 0x85 || u == 0xA0 || u == 0x1680
    ||| 0x2000 <= u <= 0x200A
    ||| u == 0x2028 || u == 0x2029 || u == 0x202F || u == 0x205F || u == 0x3000
}

pub(crate) fn white_space(c: char) -> (r: bool)
    ensures
        r == is_white_space(c),
{
    let u = c as u32;
    (9 <= u && u <= 13) || u == 32 || u == 0x85 || u == 0xA0 || u == 0x1680 || (0x2000 <= u && u
        <= 0x200A) || u == 0x2028 || u == 0x2029 || u == 0x202F || u == 0x205F || u == 0x3000
}

/// `s` without leading white space.
pub open spec fn trim_start(s: Seq<char>) -> Seq<char>
    decreases s.len(),
{
    if s.len() > 0 && is_white_space(s[0]) {
        trim_start(s.drop_first())
    } else {
        s
    }
}

/// `s` without trailing white space.
pub open spec fn trim_end(s: Seq<char>) -> Seq<char>
    decreases s.len(),
{
    if s.len() > 0 && is_white_space(s.last()) {
        trim_end(s.drop_last())
    } else {
        s
    }
}

/// `s` without leading and trailing white space (`str::trim`).
pub open spec fn trim(s: Seq<char>) -> Seq<char> {
    trim_end(trim_start(s))
}

proof fn lemma_trim_start_skip(s: Seq<char>, i: int)
    requires
        0 <= i <= s.len(),
        forall|j: int| 0 <= j < i ==> is_white_space(#[trigger] s[j]),
    ensures
        trim_start(s) == trim_start(s.subrange(i, s.len() as int)),
    decreases i,
{
    if i > 0 {
        assert(s.drop_first().subrange(i - 1, s.drop_first().len() as int) =~= s.subrange(
            i,
            s.len() as int,
        ));
        lemma_trim_start_skip(s.drop_first(), i - 1);
    } else {
        assert(s.subrange(0, s.len() as int) =~= s);
    }
}

proof fn lemma_trim_end_cut(s: Seq<char>, k: int)
    requires
        0 <= k <= s.len(),
        forall|j: int| k <= j < s.len() ==> is_white_space(#[trigger] s[j]),
    ensures
        trim_end(s) == trim_end(s.subrange(0, k)),
    decreases s.len() - k,
{
    if k < s.len() {
        assert(s.drop_last().subrange(0, k) =~= s.subrange(0, k));
        lemma_trim_end_cut(s.drop_last(), k);
    } else {
        assert(s.subrange(0, k) =~= s);
    }
}

/// `value` without leading and trailing white space.
pub fn trimmed(value: &str) -> (r: String)
    ensures
        r@ == trim(value@),
{
    let n = value.unicode_len();
    let mut i: usize = 0;
    while i < n && white_space(value.get_char(i))
        invariant
            n == value@.len(),
            i <= n,
            forall|j: int| 0 <= j < i ==> is_white_space(#[trigger] value@[j]),
        decreases n - i,
    {
        i = i + 1;
    }
    let mut k: usize = n;
    while k > i && white_space(value.get_char(k - 1))
        invariant
            n == value@.len(),
            i <= k <= n,
            forall|j: int| k <= j < n ==> is_white_space(#[trigger] value@[j]),
        decreases k,
    {
        k = k - 1;
    }
    let inner = value.substring_char(i, k);
    proof {
        lemma_trim_start_skip(value@, i as int);
        let rest = value@.subrange(i as int, n as int);
        assert(i == n || !is_white_space(rest[0]));
        assert(trim_start(rest) == rest);
        lemma_trim_end_cut(rest, k - i);
        assert(rest.subrange(0, k - i) =~= value@.subrange(i as int, k as int));
        if k > i {
            assert(!is_white_space(value@.subrange(i as int, k as int).last()));
        }
        assert(trim_end(value@.subrange(i as int, k as int)) == value@.subrange(i as int, k as int));
    }
    owned(inner)
}

/// `` `x` ``: a name between backticks.
pub open spec fn ticked(x: Seq<char>) -> Seq<char> {
    "`"@ + x + "`"@
}

/// Appends `x` between backticks.
pub fn push_ticked(out: &mut String, x: &str)
    ensures
        final(out)@ == old(out)@ + ticked(x@),
{
    out.append("`");
    out.append(x);
    out.append("`");
    proof { assert(final(out)@ =~= old(out)@ + ticked(x@)); }
}

/// `head` followed by `x` between backticks.
pub fn describe(head: &str, x: &str) -> (r: String)
    ensures
        r@ == head@ + ticked(x@),
{
    let mut r = owned(head);
    push_ticked(&mut r, x);
    r
}

/// `PathBuf::join` of a path and a further component: an absolute component
/// replaces the base; otherwise a `/` separates the two unless the base is
/// empty or already ends in one.
pub open spec fn path_join(base: Seq<char>, part: Seq<char>) -> Seq<char> {
    if part.len() > 0 && part[0] == '/' {
        part
    } else if base.len() == 0 || base.last() == '/' {
        base + part
    } else {
        base + seq!['/'] + part
    }
}

/// Joins a path component onto a base path.
pub fn join_path(base: &str, part: &str) -> (r: String)
    ensures
        r@ == path_join(base@, part@),
{
    let plen = part.unicode_len();
    if plen > 0 && part.get_char(0) == '/' {
        return owned(part);
    }
    let mut r = owned(base);
    let blen = base.unicode_len();
    if blen > 0 && base.get_char(blen - 1) != '/' {
        push_char(&mut r, '/');
    }
    r.append(part);
    proof { assert(r@ =~= path_join(base@, part@)); }
    r
}

/// `a` comes before `b` in the order of `String`: at the first position
/// where they differ the character of `a` is smaller, or `a` is a proper
/// prefix of `b`.
pub open spec fn name_less(a: Seq<char>, b: Seq<char>) -> bool
    decreases a.len(),
{
    if a.len() == 0 {
        b.len() > 0
    } else if b.len() == 0 {
        false
    } else if a[0] != b[0] {
        a[0] < b[0]
    } else {
        name_less(a.drop_first(), b.drop_first())
    }
}

pub proof fn lemma_name_less_irreflexive(a: Seq<char>)
    ensures
        !name_less(a, a),
    decreases a.len(),
{
    if a.len() > 0 {
        lemma_name_less_irreflexive(a.drop_first());
    }
}

pub proof fn lemma_name_less_total(a: Seq<char>, b: Seq<char>)
    requires
        a != b,
    ensures
        name_less(a, b) || name_less(b, a),
    decreases a.len(),
{
    if a.len() > 0 && b.len() > 0 && a[0] == b[0] {
        if a.drop_first() == b.drop_first() {
            assert(a =~= seq![a[0]] + a.drop_first());
            assert(b =~= seq![b[0]] + b.drop_first());
        }
        lemma_name_less_total(a.drop_first(), b.drop_first());
    } else if a.len() == 0 && b.len() == 0 {
        assert(a =~= b);
    }
}

pub proof fn lemma_name_less_transitive(a: Seq<char>, b: Seq<char>, c: Seq<char>)
    requires
        name_less(a, b),
        name_less(b, c),
    ensures
        name_less(a, c),
    decreases a.len(),
{
    if a.len() > 0 && b.len() > 0 && c.len() > 0 && a[0] == b[0] && b[0] == c[0] {
        lemma_name_less_transitive(a.drop_first(), b.drop_first(), c.drop_first());
    }
}

/// `a` comes before `b` (`a < b` on strings).
pub fn str_less(a: &str, b: &str) -> (r: bool)
    ensures
        r == name_less(a@, b@),
{
    let n = a.unicode_len();
    let m = b.unicode_len();
    let mut i: usize = 0;
    proof {
        assert(a@.skip(0) =~= a@);
        assert(b@.skip(0) =~= b@);
    }
    while i < n && i < m
        invariant
            n == a@.len(),
            m == b@.len(),
            i <= n,
            i <= m,
            name_less(a@, b@) == name_less(a@.skip(i as int), b@.skip(i as int)),
        decreases n - i,
    {
        let x = a.get_char(i);
        let y = b.get_char(i);
        proof {
            assert(a@.skip(i as int)[0] == x);
            assert(b@.skip(i as int)[0] == y);
            assert(a@.skip(i as int).drop_first() =~= a@.skip(i + 1));
            assert(b@.skip(i as int).drop_first() =~= b@.skip(i + 1));
        }
        if x != y {
            return x < y;
        }
        i = i + 1;
    }
    proof {
        assert(a@.skip(i as int).len() == n - i);
        assert(b@.skip(i as int).len() == m - i);
    }
    n < m
}

} // verus!
