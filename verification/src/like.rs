//! SQL `LIKE` matching and literal prefix patterns.

use crate::text::{concat2, to_chars};
use vstd::prelude::*;
use vstd::string::*;

verus! {

/// The code of `c` with ASCII letters taken in lower case.
pub open spec fn folded(c: char) -> u32 {
    if 0x41 <= c as u32 <= 0x5a {
        (c as u32 + 0x20) as u32
    } else {
        c as u32
    }
}

fn fold(c: char) -> (r: u32)
    ensures
        r == folded(c),
{
    let n: u32 = c as u32;
    if 0x41 <= n && n <= 0x5a {
        n + 0x20
    } else {
        n
    }
}

/// SQL `LIKE`: `%` stands for any run of characters, `_` for any one
/// character, the escape character makes the one behind it literal, and any
/// other character stands for itself, ASCII letters in either case.
pub open spec fn like(pattern: Seq<char>, text: Seq<char>, escape: Option<char>) -> bool
    decreases pattern.len() + text.len(),
{
    if pattern.len() == 0 {
        text.len() == 0
    } else if escape == Some(pattern[0]) {
        &&& pattern.len() > 1
        &&& text.len() > 0
        &&& folded(pattern[1]) == folded(text[0])
        &&& like(pattern.skip(2), text.skip(1), escape)
    } else if pattern[0] == '%' {
        ||| like(pattern.skip(1), text, escape)
        ||| (text.len() > 0 && like(pattern, text.skip(1), escape))
    } else if pattern[0] == '_' {
        text.len() > 0 && like(pattern.skip(1), text.skip(1), escape)
    } else {
        &&& text.len() > 0
        &&& folded(pattern[0]) == folded(text[0])
        &&& like(pattern.skip(1), text.skip(1), escape)
    }
}

fn like_from(
    pattern: &Vec<char>,
    i: usize,
    text: &Vec<char>,
    j: usize,
    escape: Option<char>,
) -> (r: bool)
    requires
        i <= pattern@.len(),
        j <= text@.len(),
    ensures
        r == like(pattern@.skip(i as int), text@.skip(j as int), escape),
    decreases pattern@.len() - i + text@.len() - j,
{
    proof {
        let p = pattern@.skip(i as int);
        let t = text@.skip(j as int);
        if p.len() > 0 {
            assert(p.skip(1) =~= pattern@.skip(i + 1));
        }
        if p.len() > 1 {
            assert(p.skip(2) =~= pattern@.skip(i + 2));
        }
        if t.len() > 0 {
            assert(t.skip(1) =~= text@.skip(j + 1));
        }
    }
    if i == pattern.len() {
        return j == text.len();
    }
    let c: char = pattern[i];
    let escaped: bool = match escape {
        Some(e) => e == c,
        None => false,
    };
    if escaped {
        if i + 1 < pattern.len() && j < text.len() && fold(pattern[i + 1]) == fold(text[j]) {
            like_from(pattern, i + 2, text, j + 1, escape)
        } else {
            false
        }
    } else if c == '%' {
        if like_from(pattern, i + 1, text, j, escape) {
            true
        } else if j < text.len() {
            like_from(pattern, i, text, j + 1, escape)
        } else {
            false
        }
    } else if c == '_' {
        if j < text.len() {
            like_from(pattern, i + 1, text, j + 1, escape)
        } else {
            false
        }
    } else if j < text.len() && fold(c) == fold(text[j]) {
        like_from(pattern, i + 1, text, j + 1, escape)
    } else {
        false
    }
}

/// Matches `text` against a `LIKE` pattern.
pub fn is_like(pattern: &str, text: &str, escape: Option<char>) -> (r: bool)
    ensures
        r == like(pattern@, text@, escape),
{
    let p: Vec<char> = to_chars(pattern);
    let t: Vec<char> = to_chars(text);
    assert(p@.skip(0) =~= p@);
    assert(t@.skip(0) =~= t@);
    like_from(&p, 0, &t, 0, escape)
}

/// `c` written so that it stands for itself in a pattern with escape `\`.
pub open spec fn escaped_char(c: char) -> Seq<char> {
    if c == '_' || c == '%' || c == '\\' {
        seq!['\\', c]
    } else {
        seq![c]
    }
}

/// `s` with every character that a pattern would read specially escaped.
pub open spec fn escaped(s: Seq<char>) -> Seq<char>
    decreases s.len(),
{
    if s.len() == 0 {
        Seq::empty()
    } else {
        escaped(s.drop_last()) + escaped_char(s.last())
    }
}

/// Escapes `_`, `%` and `\` with a backslash.
pub fn escape_like_prefix(input: &str) -> (r: String)
    ensures
        r@ == escaped(input@),
{
    let chars: Vec<char> = to_chars(input);
    let mut out: String = String::new();
    let mut i: usize = 0;
    while i < chars.len()
        invariant
            i <= chars@.len(),
            out@ == escaped(chars@.take(i as int)),
        decreases chars@.len() - i,
    {
        let c: char = chars[i];
        assert(chars@.take(i + 1).drop_last() =~= chars@.take(i as int));
        let ghost before = out@;
        if c == '_' || c == '%' || c == '\\' {
            out.push('\\');
        }
        out.push(c);
        assert(out@ =~= before + escaped_char(c));
        i = i + 1;
    }
    assert(chars@.take(i as int) =~= chars@);
    out
}

/// Holds of a text that starts with `prefix`, ASCII letters in either case.
pub open spec fn starts_folded(prefix: Seq<char>, text: Seq<char>) -> bool {
    &&& prefix.len() <= text.len()
    &&& forall|i: int| 0 <= i < prefix.len() ==> folded(#[trigger] prefix[i]) == folded(text[i])
}

/// Tells whether `text` starts with the literal characters of `prefix`.
pub fn matches_prefix(prefix: &str, text: &str) -> (r: bool)
    ensures
        r == starts_folded(prefix@, text@),
{
    let escaped_prefix: String = escape_like_prefix(prefix);
    let pattern: String = concat2(escaped_prefix.as_str(), "%");
    proof {
        reveal_strlit("%");
        assert("%"@ =~= seq!['%']);
        law_wildcards_are_literal_in_prefixes(prefix@, text@);
    }
    is_like(pattern.as_str(), text, Some('\\'))
}

/// An escaped prefix followed by `%` matches exactly the texts that start with
/// the prefix: wildcard characters in it stand for themselves.
pub proof fn law_wildcards_are_literal_in_prefixes(prefix: Seq<char>, text: Seq<char>)
    ensures
        like(escaped(prefix) + seq!['%'], text, Some('\\')) == starts_folded(prefix, text),
{
    lemma_escaped_then(prefix, seq!['%'], text);
    if prefix.len() <= text.len() {
        lemma_percent_matches_all(text.skip(prefix.len() as int));
    }
}

proof fn lemma_percent_matches_all(text: Seq<char>)
    ensures
        like(seq!['%'], text, Some('\\')),
    decreases text.len(),
{
    reveal_with_fuel(like, 2);
    assert(seq!['%'].skip(1) =~= Seq::<char>::empty());
    if text.len() > 0 {
        lemma_percent_matches_all(text.skip(1));
    }
}

/// Front form of `escaped`: the first character is escaped, then the rest.
proof fn lemma_escaped_front(s: Seq<char>)
    requires
        s.len() > 0,
    ensures
        escaped(s) == escaped_char(s[0]) + escaped(s.skip(1)),
    decreases s.len(),
{
    if s.len() == 1 {
        assert(s.drop_last() =~= Seq::<char>::empty());
        assert(s.skip(1) =~= Seq::<char>::empty());
        assert(escaped(s) =~= escaped_char(s[0]) + escaped(s.skip(1)));
    } else {
        lemma_escaped_front(s.drop_last());
        assert(s.drop_last().skip(1) =~= s.skip(1).drop_last());
        assert(escaped(s) =~= escaped_char(s[0]) + escaped(s.skip(1)));
    }
}

proof fn lemma_escaped_then(prefix: Seq<char>, rest: Seq<char>, text: Seq<char>)
    ensures
        like(escaped(prefix) + rest, text, Some('\\')) == (starts_folded(prefix, text) && like(
            rest,
            text.skip(prefix.len() as int),
            Some('\\'),
        )),
    decreases prefix.len(),
{
    let pattern = escaped(prefix) + rest;
    if prefix.len() == 0 {
        assert(pattern =~= rest);
        assert(text.skip(0) =~= text);
    } else {
        lemma_escaped_front(prefix);
        let tail = escaped(prefix.skip(1)) + rest;
        if text.len() > 0 {
            lemma_escaped_then(prefix.skip(1), rest, text.skip(1));
            if prefix.len() <= text.len() {
                assert(text.skip(1).skip(prefix.len() - 1) =~= text.skip(prefix.len() as int));
            }
            assert(starts_folded(prefix, text) == (folded(prefix[0]) == folded(text[0])
                && starts_folded(prefix.skip(1), text.skip(1)))) by {
                if folded(prefix[0]) == folded(text[0]) && starts_folded(
                    prefix.skip(1),
                    text.skip(1),
                ) {
                    assert forall|i: int| 0 <= i < prefix.len() implies folded(
                        #[trigger] prefix[i],
                    ) == folded(text[i]) by {
                        if i > 0 {
                            assert(prefix.skip(1)[i - 1] == prefix[i]);
                        }
                    }
                }
                if starts_folded(prefix, text) {
                    assert forall|i: int| 0 <= i < prefix.len() - 1 implies folded(
                        #[trigger] prefix.skip(1)[i],
                    ) == folded(text.skip(1)[i]) by {
                        assert(prefix.skip(1)[i] == prefix[i + 1]);
                    }
                }
            }
        }
        if escaped_char(prefix[0]).len() == 2 {
            assert(pattern[0] == '\\');
            assert(pattern[1] == prefix[0]);
            assert(pattern.skip(2) =~= tail);
        } else {
            assert(pattern[0] == prefix[0]);
            assert(pattern.skip(1) =~= tail);
        }
    }
}

} // verus!
