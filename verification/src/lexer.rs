//! Lexical tokenizer: splits raw source text into separator-delimited
//! tokens.
//!
//! A *separator* is one of space, semicolon, newline, tab, backslash,
//! DEL, carriage return, or NUL. The scanner walks the text character
//! by character starting at index 1; a token is emitted exactly when
//! the current character is a separator and the immediately preceding
//! one is not. Consecutive separators collapse without emitting empty
//! tokens, and a trailing token not closed by a separator is never
//! emitted.

use vstd::prelude::*;
use vstd::string::StrSliceExecFns;

verus! {

/// Whether a character delimits tokens.
pub open spec fn is_sep_char(c: char) -> bool {
    c == ' ' || c == ';' || c == '\n' || c == '\t' || c == '\\' || c == '\u{7f}' || c == '\r'
        || c == '\u{0}'
}

/// Position of the token boundary after the scanner has processed the
/// first `p` characters of `s`: the index one past the most recent
/// separator among indices `1 .. p`, or `0` if there is none.
pub open spec fn boundary_after(s: Seq<char>, p: int) -> int
    decreases p,
{
    if p <= 1 {
        0
    } else if is_sep_char(s[p - 1]) {
        p
    } else {
        boundary_after(s, p - 1)
    }
}

/// The tokens emitted once the scanner has processed the first `p`
/// characters of `s`. A token `s[boundary .. i]` is emitted at each
/// index `i >= 1` where `s[i]` is a separator and `s[i - 1]` is not.
pub open spec fn tokens_after(s: Seq<char>, p: int) -> Seq<Seq<char>>
    decreases p,
{
    if p <= 1 {
        Seq::empty()
    } else if is_sep_char(s[p - 1]) && !is_sep_char(s[p - 2]) {
        tokens_after(s, p - 1).push(s.subrange(boundary_after(s, p - 1), p - 1))
    } else {
        tokens_after(s, p - 1)
    }
}

/// All tokens of the source text `s`.
pub open spec fn tokens_of(s: Seq<char>) -> Seq<Seq<char>> {
    tokens_after(s, s.len() as int)
}

/// The view of a sequence of owned token strings.
pub open spec fn toks_view(ts: Seq<String>) -> Seq<Seq<char>> {
    Seq::new(ts.len(), |i: int| ts[i]@)
}

/// Viewing a token vector commutes with appending one token.
proof fn lemma_toks_view_push(ts: Seq<String>, t: String)
    ensures
        toks_view(ts.push(t)) =~= toks_view(ts).push(t@),
{
}

/// The scanner's boundary never runs past the characters it has read.
proof fn lemma_boundary_le(s: Seq<char>, p: int)
    requires
        0 <= p,
    ensures
        0 <= boundary_after(s, p) <= p,
    decreases p,
{
    if p > 1 {
        lemma_boundary_le(s, p - 1);
    }
}

/// Helper for the non-emptiness law, over every scanned prefix.
proof fn lemma_tokens_after_nonempty(s: Seq<char>, p: int)
    requires
        0 <= p <= s.len(),
    ensures
        forall|k: int|
            0 <= k < tokens_after(s, p).len() ==> (#[trigger] tokens_after(s, p)[k]).len() > 0,
    decreases p,
{
    if p > 1 {
        lemma_tokens_after_nonempty(s, p - 1);
        if is_sep_char(s[p - 1]) && !is_sep_char(s[p - 2]) {
            lemma_boundary_le(s, p - 2);
            assert(boundary_after(s, p - 1) <= p - 2);
            assert forall|k: int| 0 <= k < tokens_after(s, p).len() implies (#[trigger] tokens_after(
                s,
                p,
            )[k]).len() > 0 by {
                if k < tokens_after(s, p - 1).len() {
                    assert(tokens_after(s, p)[k] == tokens_after(s, p - 1)[k]);
                } else {
                    assert(tokens_after(s, p)[k] == s.subrange(boundary_after(s, p - 1), p - 1));
                }
            }
        }
    }
}

/// Non-emptiness law: the tokenizer never emits an empty token — a
/// boundary closes a token only right after a non-separator
/// character.
pub proof fn lemma_tokens_nonempty(s: Seq<char>)
    ensures
        forall|k: int|
            0 <= k < tokens_of(s).len() ==> (#[trigger] tokens_of(s)[k]).len() > 0,
{
    lemma_tokens_after_nonempty(s, s.len() as int);
}

/// Checks whether a character is a separator.
pub fn is_separator(ch: char) -> (r: bool)
    ensures
        r == is_sep_char(ch),
{
    match ch {
        ' ' | ';' | '\n' | '\t' | '\\' | '\u{7f}' | '\r' | '\u{0}' => true,
        _ => false,
    }
}

/// Appends every token of `contents` to `tokens_vector`.
pub fn tokenizer(contents: &String, tokens_vector: &mut Vec<String>)
    ensures
        toks_view(final(tokens_vector)@) == toks_view(old(tokens_vector)@) + tokens_of(contents@),
{
    let text: &str = contents.as_str();
    let n: usize = text.unicode_len();
    let mut last_token: usize = 0;
    let mut i: usize = 1;
    proof {
        assert(toks_view(tokens_vector@) =~= toks_view(old(tokens_vector)@) + tokens_after(
            contents@,
            1,
        ));
    }
    while i < n
        invariant
            n == contents@.len(),
            text@ == contents@,
            1 <= i,
            i <= n || (n <= 1 && i == 1),
            last_token == boundary_after(contents@, i as int),
            toks_view(tokens_vector@) == toks_view(old(tokens_vector)@) + tokens_after(
                contents@,
                i as int,
            ),
        decreases n - i,
    {
        let ch = text.get_char(i);
        let prev = text.get_char(i - 1);
        proof {
            lemma_boundary_le(contents@, i as int);
        }
        if is_separator(ch) {
            if !is_separator(prev) {
                let tok = text.substring_char(last_token, i);
                let owned = tok.to_owned();
                let ghost pre = tokens_vector@;
                tokens_vector.push(owned);
                proof {
                    assert(tokens_vector@ == pre.push(owned));
                    assert(owned@ == contents@.subrange(
                        boundary_after(contents@, i as int),
                        i as int,
                    ));
                    assert(tokens_after(contents@, i + 1) == tokens_after(contents@, i as int).push(
                        contents@.subrange(boundary_after(contents@, i as int), i as int),
                    ));
                    lemma_toks_view_push(pre, owned);
                    assert(toks_view(tokens_vector@) == toks_view(pre).push(owned@));
                    assert(toks_view(tokens_vector@) =~= toks_view(old(tokens_vector)@)
                        + tokens_after(contents@, i + 1));
                }
            } else {
                proof {
                    assert(tokens_after(contents@, i + 1) == tokens_after(contents@, i as int));
                }
            }
            last_token = i + 1;
        } else {
            proof {
                assert(tokens_after(contents@, i + 1) == tokens_after(contents@, i as int));
                assert(boundary_after(contents@, i + 1) == boundary_after(contents@, i as int));
            }
        }
        i = i + 1;
    }
}

} // verus!
