//! Quote-aware line scanning: deciding whether a raw line is balanced and,
//! once it is, removing quotes and escapes to produce the argument tokens.
//!
//! A quote character is *escaped* when an odd number of consecutive
//! backslashes stands immediately before it. While one kind of quote is
//! open, the other kind does not toggle. A line is balanced when both
//! unescaped quote counts are even.

use vstd::prelude::*;
use crate::text::str_to_chars;
use crate::text::chars_to_string;

verus! {

/// Balance of a raw input line: balanced, or waiting for the close of a
/// single or double quote.
#[derive(PartialEq, Eq, Structural, Clone, Copy, Debug)]
pub enum QuoteStatus {
    Balanced,
    UnclosedSingle,
    UnclosedDouble,
}

/// Number of consecutive backslashes immediately before position `i`.
pub open spec fn backslash_run(s: Seq<char>, i: int) -> nat
    decreases i,
{
    if i <= 0 || i > s.len() {
        0
    } else if s[i - 1] == '\\' {
        backslash_run(s, i - 1) + 1
    } else {
        0
    }
}

/// The character at position `i` is escaped: an odd number of consecutive
/// backslashes stands immediately before it.
pub open spec fn spec_is_escaped(s: Seq<char>, i: int) -> bool {
    backslash_run(s, i) % 2 == 1
}

/// Whether position `position` of `chars` is escaped.
pub fn is_escaped(chars: &Vec<char>, position: usize) -> (r: bool)
    requires
        position <= chars@.len(),
    ensures
        r == spec_is_escaped(chars@, position as int),
{
    if position == 0 {
        return false;
    }
    let mut count: usize = 0;
    let mut pos: usize = position;
    while pos > 0 && chars[pos - 1] == '\\'
        invariant
            pos <= position <= chars@.len(),
            count + pos == position,
            backslash_run(chars@, position as int) == count + backslash_run(chars@, pos as int),
        decreases pos,
    {
        count = count + 1;
        pos = pos - 1;
    }
    count % 2 == 1
}

/// Counts of unescaped single and double quotes among the first `i`
/// characters. A quote is counted only while the other kind is closed,
/// that is, while the other kind's count so far is even.
pub open spec fn quote_counts(s: Seq<char>, i: int) -> (nat, nat)
    decreases i,
{
    if i <= 0 || i > s.len() {
        (0, 0)
    } else {
        let prev = quote_counts(s, i - 1);
        let c = s[i - 1];
        if c == '\'' && !spec_is_escaped(s, i - 1) && prev.1 % 2 == 0 {
            ((prev.0 + 1) as nat, prev.1)
        } else if c == '"' && !spec_is_escaped(s, i - 1) && prev.0 % 2 == 0 {
            (prev.0, (prev.1 + 1) as nat)
        } else {
            prev
        }
    }
}

/// The balance status of a whole line: an odd count of unescaped single
/// quotes wins, then an odd count of unescaped double quotes, else balanced.
pub open spec fn spec_quote_status(s: Seq<char>) -> QuoteStatus {
    let counts = quote_counts(s, s.len() as int);
    if counts.0 % 2 != 0 {
        QuoteStatus::UnclosedSingle
    } else if counts.1 % 2 != 0 {
        QuoteStatus::UnclosedDouble
    } else {
        QuoteStatus::Balanced
    }
}

/// Scans `input` and reports whether its quotes are balanced.
pub fn check_quotes(input: &str) -> (r: QuoteStatus)
    ensures
        r == spec_quote_status(input@),
{
    let chars = str_to_chars(input);
    let n = chars.len();
    let mut single: usize = 0;
    let mut double: usize = 0;
    let mut i: usize = 0;
    while i < n
        invariant
            chars@ == input@,
            n == chars@.len(),
            i <= n,
            single <= i,
            double <= i,
            quote_counts(chars@, i as int) == (single as nat, double as nat),
        decreases n - i,
    {
        let c = chars[i];
        if c == '\'' {
            if !is_escaped(&chars, i) && double % 2 == 0 {
                single = single + 1;
            }
        } else if c == '"' {
            if !is_escaped(&chars, i) && single % 2 == 0 {
                double = double + 1;
            }
        }
        i = i + 1;
    }
    if single % 2 != 0 {
        QuoteStatus::UnclosedSingle
    } else if double % 2 != 0 {
        QuoteStatus::UnclosedDouble
    } else {
        QuoteStatus::Balanced
    }
}

/// A line whose unescaped quote counts are both even is balanced, so
/// normalizing it never asks for a continuation line.
pub proof fn lemma_even_quotes_balanced(s: Seq<char>)
    requires
        quote_counts(s, s.len() as int).0 % 2 == 0,
        quote_counts(s, s.len() as int).1 % 2 == 0,
    ensures
        spec_quote_status(s) == QuoteStatus::Balanced,
{
}

/// Position of the first unescaped occurrence of `q` at or after `i`.
pub open spec fn spec_find_close(s: Seq<char>, i: int, q: char) -> Option<int>
    decreases s.len() - i,
{
    if i < 0 || i >= s.len() {
        None
    } else if s[i] == q && !spec_is_escaped(s, i) {
        Some(i)
    } else {
        spec_find_close(s, i + 1, q)
    }
}

/// A found closing quote lies in range, carries `q` unescaped, and nothing
/// before it does.
pub proof fn lemma_find_close_props(s: Seq<char>, i: int, q: char)
    requires
        0 <= i,
    ensures
        match spec_find_close(s, i, q) {
            Some(j) => {
                &&& i <= j < s.len()
                &&& s[j] == q
                &&& !spec_is_escaped(s, j)
                &&& forall|k: int| i <= k < j && 0 <= k ==> !(s[k] == q && !spec_is_escaped(s, k))
            },
            None => forall|k: int|
                i <= k < s.len() && 0 <= k ==> !(s[k] == q && !spec_is_escaped(s, k)),
        },
    decreases s.len() - i,
{
    if i < 0 || i >= s.len() {
    } else if s[i] == q && !spec_is_escaped(s, i) {
    } else {
        lemma_find_close_props(s, i + 1, q);
        match spec_find_close(s, i, q) {
            Some(j) => {
                assert forall|k: int| i <= k < j && 0 <= k implies !(s[k] == q
                    && !spec_is_escaped(s, k)) by {
                    if k > i {
                        assert(!(s[k] == q && !spec_is_escaped(s, k)));
                    }
                }
            },
            None => {
                assert forall|k: int| i <= k < s.len() && 0 <= k implies !(s[k] == q
                    && !spec_is_escaped(s, k)) by {
                    if k > i {
                        assert(!(s[k] == q && !spec_is_escaped(s, k)));
                    }
                }
            },
        }
    }
}

/// Finds the first unescaped occurrence of `quote_char` after `start`.
pub fn find_closing_quote(chars: &Vec<char>, start: usize, quote_char: char) -> (r: Option<usize>)
    requires
        start < chars@.len(),
    ensures
        match r {
            Some(j) => spec_find_close(chars@, start + 1, quote_char) == Some(j as int),
            None => spec_find_close(chars@, start + 1, quote_char) is None,
        },
{
    let n = chars.len();
    let mut i: usize = start + 1;
    while i < n
        invariant
            n == chars@.len(),
            start + 1 <= i <= chars@.len(),
            spec_find_close(chars@, start + 1, quote_char) == spec_find_close(
                chars@,
                i as int,
                quote_char,
            ),
        decreases chars@.len() - i,
    {
        if chars[i] == quote_char {
            if !is_escaped(chars, i) {
                return Some(i);
            }
        }
        i = i + 1;
    }
    None
}

/// Tokenization of `s` from position `i`, with the token built so far
/// (`cur`) and the tokens already finished (`acc`). Content between a quote
/// and its unescaped close is copied without the quotes; `\"`, `\'` and
/// `\\` collapse to the escaped character; other backslashes stay literal;
/// an unmatched quote stays literal; unquoted spaces end the current token.
pub open spec fn spec_tokenize_from(
    s: Seq<char>,
    i: int,
    cur: Seq<char>,
    acc: Seq<Seq<char>>,
) -> Seq<Seq<char>>
    decreases s.len() - i, 1int,
        via spec_tokenize_from_decreases
{
    if i < 0 {
        acc
    } else if i >= s.len() {
        if cur.len() > 0 {
            acc.push(cur)
        } else {
            acc
        }
    } else {
        let c = s[i];
        if c == '"' || c == '\'' {
            match spec_find_close(s, i + 1, c) {
                Some(j) => spec_tokenize_from(s, j + 1, cur + s.subrange(i + 1, j), acc),
                None => spec_tokenize_from(s, i + 1, cur.push(c), acc),
            }
        } else if c == '\\' {
            if i + 1 < s.len() && (s[i + 1] == '"' || s[i + 1] == '\'' || s[i + 1] == '\\') {
                spec_tokenize_from(s, i + 2, cur.push(s[i + 1]), acc)
            } else {
                spec_tokenize_from(s, i + 1, cur.push('\\'), acc)
            }
        } else if c == ' ' {
            if cur.len() > 0 {
                spec_tokenize_from(s, i + 1, Seq::empty(), acc.push(cur))
            } else {
                spec_tokenize_from(s, i + 1, cur, acc)
            }
        } else {
            spec_tokenize_from(s, i + 1, cur.push(c), acc)
        }
    }
}

#[via_fn]
proof fn spec_tokenize_from_decreases(s: Seq<char>, i: int, cur: Seq<char>, acc: Seq<Seq<char>>) {
    if 0 <= i < s.len() {
        let c = s[i];
        if c == '"' || c == '\'' {
            lemma_find_close_props(s, i + 1, c);
        }
    }
}

/// The tokens of a balanced (or any) input line.
pub open spec fn spec_tokens(s: Seq<char>) -> Seq<Seq<char>> {
    spec_tokenize_from(s, 0, Seq::empty(), Seq::empty())
}

/// Splits `input` into tokens, removing quotes and resolving escapes.
pub fn process_shell_quotes(input: &str) -> (r: Vec<String>)
    ensures
        r@.map_values(|t: String| t@) == spec_tokens(input@),
{
    let chars = str_to_chars(input);
    let n = chars.len();
    let mut result: Vec<String> = Vec::new();
    let mut current: Vec<char> = Vec::new();
    let mut i: usize = 0;
    proof {
        assert(result@.map_values(|t: String| t@) =~= Seq::<Seq<char>>::empty());
        assert(current@ =~= Seq::<char>::empty());
    }
    while i < n
        invariant
            chars@ == input@,
            n == chars@.len(),
            i <= n,
            spec_tokens(input@) == spec_tokenize_from(
                chars@,
                i as int,
                current@,
                result@.map_values(|t: String| t@),
            ),
        decreases n - i,
    {
        let ghost acc0 = result@.map_values(|t: String| t@);
        let ghost cur0 = current@;
        let ghost i0 = i as int;
        let c = chars[i];
        if c == '"' || c == '\'' {
            match find_closing_quote(&chars, i, c) {
                Some(j) => {
                    proof {
                        lemma_find_close_props(chars@, i0 + 1, c);
                    }
                    let mut k: usize = i + 1;
                    proof {
                        assert(cur0 + chars@.subrange(i0 + 1, i0 + 1) =~= cur0);
                    }
                    while k < j
                        invariant
                            chars@ == input@,
                            0 <= i0,
                            i0 + 1 <= k <= j < chars@.len(),
                            current@ == cur0 + chars@.subrange(i0 + 1, k as int),
                        decreases j - k,
                    {
                        proof {
                            assert(chars@.subrange(i0 + 1, k + 1) =~= chars@.subrange(
                                i0 + 1,
                                k as int,
                            ).push(chars@[k as int]));
                        }
                        current.push(chars[k]);
                        assert(current@ =~= cur0 + chars@.subrange(i0 + 1, k + 1));
                        k = k + 1;
                    }
                    i = j + 1;
                    proof {
                        assert(current@ == cur0 + chars@.subrange(i0 + 1, j as int));
                        assert(spec_tokenize_from(chars@, i0, cur0, acc0)
                            == spec_tokenize_from(chars@, i as int, current@, acc0));
                    }
                },
                None => {
                    current.push(c);
                    i = i + 1;
                    proof {
                        assert(spec_tokenize_from(chars@, i0, cur0, acc0)
                            == spec_tokenize_from(chars@, i as int, current@, acc0));
                    }
                },
            }
        } else if c == '\\' {
            if i + 1 < n {
                let next = chars[i + 1];
                if next == '"' || next == '\'' || next == '\\' {
                    current.push(next);
                    i = i + 2;
                } else {
                    current.push('\\');
                    i = i + 1;
                }
            } else {
                current.push('\\');
                i = i + 1;
            }
            proof {
                assert(spec_tokenize_from(chars@, i0, cur0, acc0)
                    == spec_tokenize_from(chars@, i as int, current@, acc0));
            }
        } else if c == ' ' {
            if current.len() > 0 {
                let token = chars_to_string(&current);
                result.push(token);
                current = Vec::new();
                proof {
                    assert(result@.map_values(|t: String| t@) =~= acc0.push(cur0));
                    assert(current@ =~= Seq::<char>::empty());
                    assert(spec_tokenize_from(chars@, i0, cur0, acc0)
                        == spec_tokenize_from(chars@, i0 + 1, Seq::empty(), acc0.push(cur0)));
                }
            } else {
                proof {
                    assert(spec_tokenize_from(chars@, i0, cur0, acc0)
                        == spec_tokenize_from(chars@, i0 + 1, cur0, acc0));
                }
            }
            i = i + 1;
        } else {
            current.push(c);
            i = i + 1;
            proof {
                assert(spec_tokenize_from(chars@, i0, cur0, acc0)
                    == spec_tokenize_from(chars@, i as int, current@, acc0));
            }
        }
    }
    let ghost acc_end = result@.map_values(|t: String| t@);
    let ghost cur_end = current@;
    if current.len() > 0 {
        let token = chars_to_string(&current);
        result.push(token);
        proof {
            assert(result@.map_values(|t: String| t@) =~= acc_end.push(cur_end));
            assert(spec_tokenize_from(chars@, n as int, cur_end, acc_end) == acc_end.push(cur_end));
        }
    } else {
        proof {
            assert(spec_tokenize_from(chars@, n as int, cur_end, acc_end) == acc_end);
        }
    }
    result
}

} // verus!
