//! Character-level text operations used by the rule engine: placeholder
//! replacement, searching, decimal rendering and shell quoting.

use crate::error::RrrError;
use vstd::prelude::*;
use vstd::string::*;

verus! {

/// The result of replacing, left to right and without overlap, every
/// occurrence of `from` in `text` by `to` (as `str::replace` does).
pub open spec fn replaced(text: Seq<char>, from: Seq<char>, to: Seq<char>) -> Seq<char>
    decreases text.len(),
{
    if from.len() == 0 || text.len() < from.len() {
        text
    } else if text.subrange(0, from.len() as int) == from {
        to + replaced(text.subrange(from.len() as int, text.len() as int), from, to)
    } else {
        seq![text[0]] + replaced(text.drop_first(), from, to)
    }
}

/// `pat` occurs in `text` starting at position `i`.
pub open spec fn occurs_at(text: Seq<char>, pat: Seq<char>, i: int) -> bool {
    0 <= i && i + pat.len() <= text.len() && text.subrange(i, i + pat.len()) == pat
}

/// `pat` occurs somewhere in `text`.
pub open spec fn contains_seq(text: Seq<char>, pat: Seq<char>) -> bool {
    exists|i: int| occurs_at(text, pat, i)
}

/// The character of a decimal digit.
pub open spec fn digit_char(d: nat) -> char {
    ((d + 48) as u8) as char
}

/// The decimal rendering of a natural number, without leading zeros.
pub open spec fn decimal(n: nat) -> Seq<char>
    decreases n,
{
    if n < 10 {
        seq![digit_char(n)]
    } else {
        decimal(n / 10).push(digit_char(n % 10))
    }
}

/// The characters of `s`, in order.
pub fn chars_of(s: &str) -> (r: Vec<char>)
    ensures
        r@ == s@,
{
    let n = s.unicode_len();
    let mut out: Vec<char> = Vec::new();
    let mut i: usize = 0;
    while i < n
        invariant
            n == s@.len(),
            i <= n,
            out@ == s@.subrange(0, i as int),
        decreases n - i,
    {
        out.push(s.get_char(i));
        i = i + 1;
        assert(out@ =~= s@.subrange(0, i as int));
    }
    assert(s@.subrange(0, n as int) =~= s@);
    out
}

/// Relies on `String: FromIterator<&char>`: a string of exactly these characters.
#[verifier::external_body]
pub(crate) fn string_of(v: &Vec<char>) -> (r: String)
    ensures
        r@ == v@,
{
    v.iter().collect()
}

/// Whether `pat` occurs in `text` at position `i`.
pub fn starts_at(text: &Vec<char>, pat: &Vec<char>, i: usize) -> (r: bool)
    ensures
        r == occurs_at(text@, pat@, i as int),
{
    if i > text.len() || pat.len() > text.len() - i {
        return false;
    }
    let mut k: usize = 0;
    while k < pat.len()
        invariant
            i + pat.len() <= text.len(),
            k <= pat.len(),
            forall|j: int| 0 <= j < k ==> text@[i + j] == pat@[j],
        decreases pat.len() - k,
    {
        if text[i + k] != pat[k] {
            assert(text@.subrange(i as int, i + pat.len())[k as int] != pat@[k as int]);
            return false;
        }
        k = k + 1;
    }
    assert(text@.subrange(i as int, i + pat.len()) =~= pat@);
    true
}

/// Whether `pat` occurs anywhere in `text`.
pub fn contains(text: &Vec<char>, pat: &Vec<char>) -> (r: bool)
    ensures
        r == contains_seq(text@, pat@),
{
    let mut i: usize = 0;
    while i < text.len()
        invariant
            i <= text.len(),
            forall|j: int| 0 <= j < i ==> !occurs_at(text@, pat@, j),
        decreases text.len() - i,
    {
        if starts_at(text, pat, i) {
            return true;
        }
        i = i + 1;
    }
    if starts_at(text, pat, i) {
        return true;
    }
    assert forall|j: int| !occurs_at(text@, pat@, j) by {
        if 0 <= j && j <= i {
        }
    }
    false
}

proof fn lemma_replaced_step(text: Seq<char>, from: Seq<char>, to: Seq<char>, i: int)
    requires
        from.len() > 0,
        0 <= i < text.len(),
    ensures
        i + from.len() <= text.len() && text.subrange(i, i + from.len()) == from ==> replaced(
            text.subrange(i, text.len() as int),
            from,
            to,
        ) == to + replaced(text.subrange(i + from.len(), text.len() as int), from, to),
        !(i + from.len() <= text.len() && text.subrange(i, i + from.len()) == from)
            ==> replaced(text.subrange(i, text.len() as int), from, to) == seq![text[i]]
            + replaced(text.subrange(i + 1, text.len() as int), from, to),
{
    let rest = text.subrange(i, text.len() as int);
    if i + from.len() <= text.len() {
        assert(rest.subrange(0, from.len() as int) =~= text.subrange(i, i + from.len()));
        assert(rest.subrange(from.len() as int, rest.len() as int) =~= text.subrange(
            i + from.len(),
            text.len() as int,
        ));
    }
    assert(rest.drop_first() =~= text.subrange(i + 1, text.len() as int));
    if rest.len() < from.len() {
        assert(replaced(rest.drop_first(), from, to) == rest.drop_first());
        assert(rest =~= seq![text[i]] + rest.drop_first());
    }
}

/// Replaces every occurrence of `from` in `text` by `to`, left to right.
pub fn replace(text: &Vec<char>, from: &Vec<char>, to: &Vec<char>) -> (r: Vec<char>)
    requires
        from@.len() > 0,
    ensures
        r@ == replaced(text@, from@, to@),
{
    let mut out: Vec<char> = Vec::new();
    let mut i: usize = 0;
    assert(text@.subrange(0, text@.len() as int) =~= text@);
    while i < text.len()
        invariant
            from@.len() > 0,
            i <= text.len(),
            out@ + replaced(text@.subrange(i as int, text@.len() as int), from@, to@) == replaced(
                text@,
                from@,
                to@,
            ),
        decreases text.len() - i,
    {
        proof {
            lemma_replaced_step(text@, from@, to@, i as int);
        }
        if starts_at(text, from, i) {
            let ghost before = out@;
            let mut k: usize = 0;
            while k < to.len()
                invariant
                    k <= to.len(),
                    out@ == before + to@.subrange(0, k as int),
                decreases to.len() - k,
            {
                out.push(to[k]);
                k = k + 1;
                assert(out@ =~= before + to@.subrange(0, k as int));
            }
            assert(to@.subrange(0, to@.len() as int) =~= to@);
            assert(out@ + replaced(text@.subrange(i + from@.len(), text@.len() as int), from@, to@)
                =~= before + (to@ + replaced(
                text@.subrange(i + from@.len(), text@.len() as int),
                from@,
                to@,
            )));
            i = i + from.len();
        } else {
            let ghost before = out@;
            out.push(text[i]);
            assert(out@ + replaced(text@.subrange(i + 1, text@.len() as int), from@, to@) =~= before
                + (seq![text@[i as int]] + replaced(
                text@.subrange(i + 1, text@.len() as int),
                from@,
                to@,
            )));
            i = i + 1;
        }
    }
    assert(text@.subrange(i as int, text@.len() as int) =~= Seq::<char>::empty());
    assert(out@ + Seq::<char>::empty() =~= out@);
    out
}

/// Appends the decimal rendering of `n` to `out`.
pub fn push_decimal(out: &mut Vec<char>, n: usize)
    ensures
        final(out)@ == old(out)@ + decimal(n as nat),
    decreases n,
{
    if n >= 10 {
        push_decimal(out, n / 10);
    }
    let d: u8 = (n % 10) as u8;
    let c = (d + 48u8) as char;
    out.push(c);
    proof {
        if n >= 10 {
            assert(old(out)@ + decimal(n as nat) =~= old(out)@ + decimal((n / 10) as nat) + seq![c]);
        } else {
            assert(old(out)@ + decimal(n as nat) =~= old(out)@ + seq![c]);
        }
    }
}

/// The fields of `s` separated by `sep`, empty fields included (as `str::split`).
pub open spec fn split_on(s: Seq<char>, sep: char) -> Seq<Seq<char>>
    decreases s.len(),
{
    if s.len() == 0 {
        seq![Seq::<char>::empty()]
    } else {
        let rest = split_on(s.drop_last(), sep);
        if s.last() == sep {
            rest.push(Seq::<char>::empty())
        } else {
            rest.update(rest.len() - 1, rest.last().push(s.last()))
        }
    }
}

proof fn lemma_split_on_nonempty(s: Seq<char>, sep: char)
    ensures
        split_on(s, sep).len() >= 1,
    decreases s.len(),
{
    if s.len() > 0 {
        lemma_split_on_nonempty(s.drop_last(), sep);
    }
}

/// Splits `s` into the fields separated by `sep`.
pub fn split_chars(s: &Vec<char>, sep: char) -> (r: Vec<Vec<char>>)
    ensures
        r@.map_values(|f: Vec<char>| f@) == split_on(s@, sep),
{
    let mut fields: Vec<Vec<char>> = Vec::new();
    let mut cur: Vec<char> = Vec::new();
    let mut i: usize = 0;
    assert(s@.subrange(0, 0) =~= Seq::<char>::empty());
    assert(fields@.map_values(|f: Vec<char>| f@).push(cur@) =~= seq![Seq::<char>::empty()]);
    while i < s.len()
        invariant
            i <= s.len(),
            fields@.map_values(|f: Vec<char>| f@).push(cur@) == split_on(
                s@.subrange(0, i as int),
                sep,
            ),
        decreases s.len() - i,
    {
        let ghost prefix = s@.subrange(0, i as int + 1);
        assert(prefix.drop_last() =~= s@.subrange(0, i as int));
        proof {
            lemma_split_on_nonempty(prefix.drop_last(), sep);
        }
        let ghost old_fields = fields@;
        let ghost old_cur = cur@;
        if s[i] == sep {
            fields.push(cur);
            cur = Vec::new();
            assert(fields@.map_values(|f: Vec<char>| f@).push(cur@) =~= old_fields.map_values(
                |f: Vec<char>| f@,
            ).push(old_cur).push(Seq::<char>::empty()));
        } else {
            cur.push(s[i]);
            let ghost prev = old_fields.map_values(|f: Vec<char>| f@).push(old_cur);
            assert(fields@.map_values(|f: Vec<char>| f@).push(cur@) =~= prev.update(
                prev.len() - 1,
                prev.last().push(s@[i as int]),
            ));
        }
        i = i + 1;
    }
    assert(s@.subrange(0, s@.len() as int) =~= s@);
    let ghost before = fields@;
    fields.push(cur);
    assert(fields@.map_values(|f: Vec<char>| f@) =~= before.map_values(|f: Vec<char>| f@).push(
        cur@,
    ));
    fields
}

#[verifier::external_type_specification]
#[verifier::external_body]
pub struct ExQuoteError(shlex::QuoteError);

/// What `shlex::try_quote` makes of a string it can quote.
pub uninterp spec fn shell_quoted(s: Seq<char>) -> Seq<char>;

/// Relies on `shlex::try_quote`: the text quoted for a POSIX shell; the only
/// error is a nul character in the input.
#[verifier::external_body]
fn try_quote(s: &str) -> (r: Result<String, shlex::QuoteError>)
    ensures
        r is Err <==> s@.contains('\0'),
        r matches Ok(q) ==> q@ == shell_quoted(s@),
{
    shlex::try_quote(s).map(|q| q.into_owned())
}

/// Quotes `s` so that a shell reads it back as one word.
pub fn quote(s: &str) -> (r: Result<String, RrrError>)
    ensures
        r is Err <==> s@.contains('\0'),
        r matches Ok(q) ==> q@ == shell_quoted(s@),
        r matches Err(e) ==> e is UnquotableText,
{
    match try_quote(s) {
        Ok(q) => Ok(q),
        Err(_) => Err(RrrError::UnquotableText),
    }
}

/// What `shlex::split` makes of a string: its shell words, or nothing where
/// the quoting is malformed.
pub uninterp spec fn shell_words(s: Seq<char>) -> Option<Seq<Seq<char>>>;

/// Relies on `shlex::split`: the shell words of `s`, `None` on malformed quoting.
#[verifier::external_body]
fn split_words(s: &str) -> (r: Option<Vec<String>>)
    ensures
        match r {
            Some(v) => shell_words(s@) == Some(v@.map_values(|w: String| w@)),
            None => shell_words(s@) is None,
        },
{
    shlex::split(s)
}

/// Removes the shell quoting of a string that holds exactly one shell word,
/// e.g. `"hello world"` quoted gives `hello world`.
pub fn unquote(s: &str) -> (r: Result<String, RrrError>)
    ensures
        match shell_words(s@) {
            Some(ws) if ws.len() == 1 => r matches Ok(w) && w@ == ws[0],
            _ => r matches Err(RrrError::InvalidQuotedString(t)) && t@ == s@,
        },
{
    match split_words(s) {
        Some(parts) => {
            if parts.len() == 1 {
                let w = parts[0].clone();
                assert(parts@.map_values(|w: String| w@)[0] == parts@[0]@);
                Ok(w)
            } else {
                Err(RrrError::InvalidQuotedString(String::from_str(s)))
            }
        },
        None => Err(RrrError::InvalidQuotedString(String::from_str(s))),
    }
}

} // verus!
