//! The parser: cleans the raw text, splits it on commas and checks that every
//! token is a numeric literal.
//!
//! Cleaning keeps only digits, the decimal point, the comma and the minus
//! sign; whitespace and every other character are dropped silently, and a
//! single trailing comma is stripped. The cleaned text is split on commas and
//! each token must match the decimal grammar `-?([0-9]+(\.[0-9]*)?|\.[0-9]+)`;
//! an empty token — from an empty input or from consecutive commas — fails.
//! Turning a valid token into a number is left to the caller.

use vstd::prelude::*;

verus! {

/// Error for an input whose cleaned text holds a token that is not a numeric
/// literal. No partial result accompanies it.
#[derive(Clone, Copy, PartialEq, Eq, Structural, Debug)]
pub struct ParseError;

/// A decimal digit.
pub open spec fn is_digit(c: char) -> bool {
    '0' as u32 <= c as u32 && c as u32 <= '9' as u32
}

/// Characters that survive the input filter.
pub open spec fn keep_char(c: char) -> bool {
    c == ',' || c == '.' || c == '-' || is_digit(c)
}

/// The cleaned text: every character the filter does not keep is dropped.
pub open spec fn clean(s: Seq<char>) -> Seq<char> {
    s.filter(|c: char| keep_char(c))
}

/// One trailing comma is dropped; any other last character is left alone.
pub open spec fn trim_comma(s: Seq<char>) -> Seq<char> {
    if s.len() > 0 && s.last() == ',' {
        s.drop_last()
    } else {
        s
    }
}

/// Splitting on commas, as the standard splitter does: one token more than
/// there are commas, so an empty text yields one empty token.
pub open spec fn split_commas(s: Seq<char>) -> Seq<Seq<char>>
    decreases s.len(),
{
    if s.len() == 0 {
        seq![Seq::<char>::empty()]
    } else if s.last() == ',' {
        split_commas(s.drop_last()).push(Seq::<char>::empty())
    } else {
        let rest = split_commas(s.drop_last());
        rest.update(rest.len() - 1, rest.last().push(s.last()))
    }
}

pub proof fn lemma_split_commas_nonempty(s: Seq<char>)
    ensures
        split_commas(s).len() >= 1,
    decreases s.len(),
{
    if s.len() > 0 {
        lemma_split_commas_nonempty(s.drop_last());
    }
}

/// The unsigned part of a numeric token: non-empty, only digits and at most
/// one decimal point, and at least one digit.
pub open spec fn valid_body(u: Seq<char>) -> bool {
    &&& u.len() > 0
    &&& (forall|i: int| 0 <= i < u.len() ==> is_digit(#[trigger] u[i]) || u[i] == '.')
    &&& (forall|i: int, j: int|
        #![trigger u[i], u[j]]
        0 <= i < j < u.len() ==> !(u[i] == '.' && u[j] == '.'))
    &&& (exists|i: int| 0 <= i < u.len() && is_digit(#[trigger] u[i]))
}

/// A numeric token: an optional leading minus sign before a valid body.
pub open spec fn valid_token(t: Seq<char>) -> bool {
    if t.len() > 0 && t[0] == '-' {
        valid_body(t.skip(1))
    } else {
        valid_body(t)
    }
}

/// The tokens of a raw text: clean it, strip one trailing comma, split.
pub open spec fn tokens_of(raw: Seq<char>) -> Seq<Seq<char>> {
    split_commas(trim_comma(clean(raw)))
}

/// A raw text parses exactly when each of its tokens is a numeric literal.
pub open spec fn parse_ok(raw: Seq<char>) -> bool {
    forall|i: int| 0 <= i < tokens_of(raw).len() ==> valid_token(#[trigger] tokens_of(raw)[i])
}

/// Relies on String::push: appends the one character at the end.
#[verifier::external_body]
fn push_char(s: &mut String, c: char)
    ensures
        final(s)@ == old(s)@.push(c),
{
    s.push(c);
}

/// Decides whether a character is a decimal digit.
pub fn is_digit_exec(c: char) -> (r: bool)
    ensures
        r == is_digit(c),
{
    let u = c as u32;
    48 <= u && u <= 57
}

/// Decides whether the filter keeps a character.
pub fn is_kept(c: char) -> (r: bool)
    ensures
        r == keep_char(c),
{
    c == ',' || c == '.' || c == '-' || is_digit_exec(c)
}

/// Keeps only digits, `.`, `,` and `-`, then drops a single trailing comma.
/// Whitespace never passes the filter, since no kept character is whitespace.
pub fn filter(s: &str) -> (r: String)
    ensures
        r@ == trim_comma(clean(s@)),
{
    let n = s.unicode_len();
    let mut out = String::new();
    let mut i: usize = 0;
    while i < n
        invariant
            i <= n,
            n == s@.len(),
            out@ == clean(s@.take(i as int)),
        decreases n - i,
    {
        let c = s.get_char(i);
        proof {
            reveal(Seq::filter);
            assert(s@.take(i + 1).drop_last() =~= s@.take(i as int));
            assert(s@.take(i + 1).last() == s@[i as int]);
        }
        if is_kept(c) {
            push_char(&mut out, c);
        }
        i += 1;
    }
    proof {
        assert(s@.take(n as int) =~= s@);
    }
    let m = out.unicode_len();
    if m > 0 {
        let last = out.as_str().get_char(m - 1);
        if last == ',' {
            let t = out.as_str().substring_char(0, m - 1);
            proof {
                assert(t@ =~= trim_comma(clean(s@)));
            }
            return t.to_owned();
        }
    }
    out
}

/// Splits a text on commas into its tokens.
pub fn split_tokens(s: &str) -> (r: Vec<String>)
    ensures
        r.deep_view() == split_commas(s@),
{
    let n = s.unicode_len();
    let mut done: Vec<String> = Vec::new();
    let mut cur = String::new();
    let mut i: usize = 0;
    while i < n
        invariant
            i <= n,
            n == s@.len(),
            done.deep_view().push(cur@) == split_commas(s@.take(i as int)),
        decreases n - i,
    {
        let c = s.get_char(i);
        proof {
            assert(s@.take(i + 1).drop_last() =~= s@.take(i as int));
            assert(s@.take(i + 1).last() == s@[i as int]);
            lemma_split_commas_nonempty(s@.take(i as int));
        }
        let ghost prev_done = done.deep_view();
        let ghost prev_cur = cur@;
        if c == ',' {
            done.push(cur);
            cur = String::new();
            proof {
                assert(done.deep_view() =~= prev_done.push(prev_cur));
                assert(done.deep_view().push(cur@) =~= split_commas(s@.take(i + 1)));
            }
        } else {
            push_char(&mut cur, c);
            proof {
                let rest = split_commas(s@.take(i as int));
                assert(rest.last() == prev_cur);
                assert(split_commas(s@.take(i + 1)) =~= rest.update(
                    rest.len() - 1,
                    prev_cur.push(c),
                ));
                assert(prev_done.push(prev_cur).update(prev_done.len() as int, prev_cur.push(c))
                    =~= prev_done.push(prev_cur.push(c)));
                assert(done.deep_view().push(cur@) =~= prev_done.push(prev_cur.push(c)));
            }
        }
        i += 1;
    }
    proof {
        assert(s@.take(n as int) =~= s@);
    }
    done.push(cur);
    proof {
        assert(done.deep_view() =~= split_commas(s@));
    }
    done
}

/// Decides whether a token is a numeric literal of the grammar
/// `-?([0-9]+(\.[0-9]*)?|\.[0-9]+)`. On text made of kept characters this is
/// exactly the set of tokens that read as a finite decimal number.
pub fn check_token(t: &str) -> (r: bool)
    ensures
        r == valid_token(t@),
{
    let n = t.unicode_len();
    let neg = n > 0 && t.get_char(0) == '-';
    let start: usize = if neg {
        1
    } else {
        0
    };
    let ghost u = t@.skip(start as int);
    proof {
        if !neg {
            assert(u =~= t@);
        }
        assert(valid_token(t@) == valid_body(u));
    }
    let mut has_digit = false;
    let mut has_dot = false;
    let mut i: usize = start;
    while i < n
        invariant
            start <= i <= n,
            n == t@.len(),
            start <= 1,
            u == t@.skip(start as int),
            u.len() == n - start,
            valid_token(t@) == valid_body(u),
            forall|k: int| 0 <= k < i - start ==> is_digit(#[trigger] u[k]) || u[k] == '.',
            has_digit == (exists|k: int| 0 <= k < i - start && is_digit(#[trigger] u[k])),
            has_dot == (exists|k: int| 0 <= k < i - start && #[trigger] u[k] == '.'),
            forall|k1: int, k2: int|
                #![trigger u[k1], u[k2]]
                0 <= k1 < k2 < i - start ==> !(u[k1] == '.' && u[k2] == '.'),
        decreases n - i,
    {
        let c = t.get_char(i);
        proof {
            assert(u[i - start] == t@[i as int]);
        }
        if is_digit_exec(c) {
            has_digit = true;
            proof {
                assert(is_digit(u[i - start]));
            }
        } else if c == '.' {
            if has_dot {
                proof {
                    let k = choose|k: int| 0 <= k < i - start && #[trigger] u[k] == '.';
                    assert(u[k] == '.' && u[i - start] == '.');
                    assert(!valid_body(u));
                }
                return false;
            }
            has_dot = true;
        } else {
            proof {
                assert(!(is_digit(u[i - start]) || u[i - start] == '.'));
                assert(!valid_body(u));
            }
            return false;
        }
        i += 1;
    }
    proof {
        if has_digit {
            assert(valid_body(u));
        } else {
            assert(!valid_body(u));
        }
    }
    has_digit
}

/// Cleans the raw text and splits it into tokens, accepting the input exactly
/// when every token is a numeric literal; no partial result is handed back on
/// failure.
pub fn tokenize(raw: &str) -> (r: Result<Vec<String>, ParseError>)
    ensures
        r is Ok <==> parse_ok(raw@),
        r is Ok ==> (r->Ok_0).deep_view() == tokens_of(raw@),
{
    let cleaned = filter(raw);
    let toks = split_tokens(cleaned.as_str());
    proof {
        assert(toks.deep_view() == tokens_of(raw@));
    }
    let mut i: usize = 0;
    let end = toks.len();
    while i < end
        invariant
            end == toks@.len(),
            toks.deep_view() == tokens_of(raw@),
            forall|k: int| 0 <= k < i ==> valid_token(#[trigger] tokens_of(raw@)[k]),
        decreases end - i,
    {
        proof {
            assert(toks.deep_view()[i as int] == toks@[i as int]@);
        }
        if !check_token(toks[i].as_str()) {
            proof {
                assert(!valid_token(tokens_of(raw@)[i as int]));
            }
            return Err(ParseError);
        }
        i += 1;
    }
    Ok(toks)
}

proof fn lemma_clean_of_unkept_is_empty(s: Seq<char>)
    requires
        forall|i: int| 0 <= i < s.len() ==> !keep_char(#[trigger] s[i]),
    ensures
        clean(s) == Seq::<char>::empty(),
    decreases s.len(),
{
    reveal(Seq::filter);
    if s.len() > 0 {
        lemma_clean_of_unkept_is_empty(s.drop_last());
    }
    assert(clean(s) =~= Seq::<char>::empty());
}

/// A raw text none of whose characters is kept — letters and whitespace only,
/// say — never parses: its cleaned form is empty, so its single token is the
/// empty token, which is no numeric literal.
pub proof fn lemma_unkept_input_fails(raw: Seq<char>)
    requires
        forall|i: int| 0 <= i < raw.len() ==> !keep_char(#[trigger] raw[i]),
    ensures
        !parse_ok(raw),
{
    lemma_clean_of_unkept_is_empty(raw);
    assert(trim_comma(clean(raw)) == Seq::<char>::empty());
    assert(tokens_of(raw) =~= seq![Seq::<char>::empty()]);
    assert(!valid_token(tokens_of(raw)[0]));
}

} // verus!
