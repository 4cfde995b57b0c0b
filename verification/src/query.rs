//! Full-text query expressions built from free text.

use crate::error;
use crate::error::Error;
use crate::text;
use crate::text::{from_chars, is_white_space, to_chars};
use vstd::prelude::*;
use vstd::string::*;

verus! {

/// Number of characters before the first white space of `s`.
pub open spec fn word_len(s: Seq<char>) -> nat
    decreases s.len(),
{
    if s.len() == 0 || text::white_space(s[0]) {
        0
    } else {
        1 + word_len(s.skip(1))
    }
}

/// The words of `s`: its maximal stretches without white space, in order.
pub open spec fn words(s: Seq<char>) -> Seq<Seq<char>>
    decreases s.len(),
    via words_decreases
{
    if s.len() == 0 {
        Seq::empty()
    } else if text::white_space(s[0]) {
        words(s.skip(1))
    } else {
        seq![s.take(word_len(s) as int)] + words(s.skip(word_len(s) as int))
    }
}

#[via_fn]
proof fn words_decreases(s: Seq<char>) {
    lemma_word_len(s);
}

proof fn lemma_word_len(s: Seq<char>)
    ensures
        word_len(s) <= s.len(),
    decreases s.len(),
{
    if s.len() > 0 && !text::white_space(s[0]) {
        lemma_word_len(s.skip(1));
    }
}

/// Splits `input` into words.
pub fn split_words(input: &str) -> (r: Vec<String>)
    ensures
        r@.len() == words(input@).len(),
        forall|i: int| 0 <= i < r@.len() ==> (#[trigger] r@[i])@ == words(input@)[i],
{
    let chars: Vec<char> = to_chars(input);
    let mut out: Vec<String> = Vec::new();
    let ghost mut done: Seq<Seq<char>> = Seq::empty();
    let mut i: usize = 0;
    assert(chars@.skip(0) =~= chars@);
    assert(done + words(chars@.skip(0)) =~= words(chars@));
    while i < chars.len()
        invariant
            i <= chars@.len(),
            words(chars@) == done + words(chars@.skip(i as int)),
            out@.len() == done.len(),
            forall|k: int| 0 <= k < out@.len() ==> (#[trigger] out@[k])@ == done[k],
        decreases chars@.len() - i,
    {
        let ghost rest = chars@.skip(i as int);
        if is_white_space(chars[i]) {
            assert(rest.skip(1) =~= chars@.skip(i + 1));
            i = i + 1;
        } else {
            let mut j: usize = i + 1;
            assert(rest.skip(1) =~= chars@.skip(i + 1));
            while j < chars.len() && !is_white_space(chars[j])
                invariant
                    i < j <= chars@.len(),
                    rest == chars@.skip(i as int),
                    word_len(rest) == j - i + word_len(chars@.skip(j as int)),
                decreases chars@.len() - j,
            {
                assert(chars@.skip(j as int).skip(1) =~= chars@.skip(j + 1));
                j = j + 1;
            }
            assert(word_len(rest) == j - i);
            assert(rest.take(j - i) =~= chars@.subrange(i as int, j as int));
            assert(rest.skip(j - i) =~= chars@.skip(j as int));
            let word: String = from_chars(&chars, i, j);
            proof {
                let next = done.push(word@);
                assert(done + (seq![word@] + words(chars@.skip(j as int))) =~= next + words(
                    chars@.skip(j as int),
                ));
                done = next;
            }
            out.push(word);
            i = j;
        }
    }
    assert(chars@.skip(i as int) =~= Seq::<char>::empty());
    assert(words(chars@) =~= done);
    out
}

/// `s` with every double quote doubled.
pub open spec fn doubled(s: Seq<char>) -> Seq<char>
    decreases s.len(),
{
    if s.len() == 0 {
        Seq::empty()
    } else if s.last() == '"' {
        doubled(s.drop_last()) + seq!['"', '"']
    } else {
        doubled(s.drop_last()) + seq![s.last()]
    }
}

/// `term` as a quoted string of the query language.
pub open spec fn quoted(term: Seq<char>) -> Seq<char> {
    seq!['"'] + doubled(term) + seq!['"']
}

/// The quoted terms with `separator` between them.
pub open spec fn expression(terms: Seq<Seq<char>>, separator: Seq<char>) -> Seq<char>
    decreases terms.len(),
{
    if terms.len() == 0 {
        Seq::empty()
    } else if terms.len() == 1 {
        quoted(terms[0])
    } else {
        expression(terms.drop_last(), separator) + (separator + quoted(terms.last()))
    }
}

/// The query expression for `input`, or the message when it has no word.
pub open spec fn match_expression(
    input: Seq<char>,
    separator: Seq<char>,
    empty_message: Seq<char>,
) -> Result<Seq<char>, Seq<char>> {
    if words(input).len() == 0 {
        Err(empty_message)
    } else {
        Ok(expression(words(input), separator))
    }
}

fn push_quoted(out: &mut String, term: &str)
    ensures
        final(out)@ == old(out)@ + quoted(term@),
{
    let chars: Vec<char> = to_chars(term);
    let ghost before = out@;
    out.push('"');
    let mut i: usize = 0;
    while i < chars.len()
        invariant
            i <= chars@.len(),
            out@ == before + (seq!['"'] + doubled(chars@.take(i as int))),
        decreases chars@.len() - i,
    {
        let c: char = chars[i];
        assert(chars@.take(i + 1).drop_last() =~= chars@.take(i as int));
        if c == '"' {
            out.push('"');
        }
        out.push(c);
        i = i + 1;
        assert(out@ =~= before + (seq!['"'] + doubled(chars@.take(i as int))));
    }
    assert(chars@.take(i as int) =~= chars@);
    out.push('"');
    assert(out@ =~= before + quoted(term@));
}

fn build_expression(input: &str, separator: &str, empty_message: &str) -> (r: Result<String, Error>)
    ensures
        error::outcome(r) == match_expression(input@, separator@, empty_message@),
{
    let terms: Vec<String> = split_words(input);
    if terms.is_empty() {
        return Err(Error::new(empty_message));
    }
    let ghost all = words(input@);
    let mut out: String = String::new();
    push_quoted(&mut out, terms[0].as_str());
    assert(all.take(1).len() == 1);
    assert(out@ =~= expression(all.take(1), separator@));
    let mut i: usize = 1;
    while i < terms.len()
        invariant
            1 <= i <= terms@.len(),
            terms@.len() == all.len(),
            forall|k: int| 0 <= k < terms@.len() ==> (#[trigger] terms@[k])@ == all[k],
            out@ == expression(all.take(i as int), separator@),
        decreases terms@.len() - i,
    {
        out.append(separator);
        push_quoted(&mut out, terms[i].as_str());
        assert(all.take(i + 1).drop_last() =~= all.take(i as int));
        assert(out@ =~= expression(all.take(i + 1), separator@));
        i = i + 1;
    }
    assert(all.take(i as int) =~= all);
    Ok(out)
}

/// Query for memories: any of the words of `input`, each taken literally.
pub fn fts_query(input: &str) -> (r: Result<String, Error>)
    ensures
        error::outcome(r) == match_expression(input@, " OR "@, "query cannot be empty"@),
{
    build_expression(input, " OR ", "query cannot be empty")
}

/// Query for recorded history: all of the words of `input`, each taken literally.
pub fn history_query(input: &str) -> (r: Result<String, Error>)
    ensures
        error::outcome(r) == match_expression(input@, " AND "@, "history query cannot be empty"@),
{
    build_expression(input, " AND ", "history query cannot be empty")
}

/// What the query language reads in a quoted string behind its opening quote:
/// a doubled quote stands for one, and a single quote closes the string.
pub open spec fn unquoted_rest(s: Seq<char>) -> Option<Seq<char>>
    decreases s.len(),
{
    if s.len() == 0 {
        None
    } else if s[0] != '"' {
        match unquoted_rest(s.skip(1)) {
            Some(rest) => Some(seq![s[0]] + rest),
            None => None,
        }
    } else if s.len() == 1 {
        Some(Seq::empty())
    } else if s[1] == '"' {
        match unquoted_rest(s.skip(2)) {
            Some(rest) => Some(seq!['"'] + rest),
            None => None,
        }
    } else {
        None
    }
}

/// A quoted term is one string of the query language and stands for exactly
/// the characters of the term, so no operator can be smuggled in by a query.
pub proof fn law_quoted_terms_are_literal(term: Seq<char>)
    ensures
        quoted(term)[0] == '"',
        unquoted_rest(quoted(term).skip(1)) == Some(term),
{
    assert(quoted(term).skip(1) =~= doubled(term) + seq!['"']);
    lemma_unquoted(term);
}

proof fn lemma_doubled_front(s: Seq<char>)
    requires
        s.len() > 0,
    ensures
        doubled(s) == (if s[0] == '"' {
            seq!['"', '"']
        } else {
            seq![s[0]]
        }) + doubled(s.skip(1)),
    decreases s.len(),
{
    let head = if s[0] == '"' {
        seq!['"', '"']
    } else {
        seq![s[0]]
    };
    if s.len() == 1 {
        assert(s.drop_last() =~= Seq::<char>::empty());
        assert(s.skip(1) =~= Seq::<char>::empty());
        assert(doubled(s) =~= head + doubled(s.skip(1)));
    } else {
        lemma_doubled_front(s.drop_last());
        assert(s.drop_last().skip(1) =~= s.skip(1).drop_last());
        assert(doubled(s) =~= head + doubled(s.skip(1)));
    }
}

proof fn lemma_unquoted(term: Seq<char>)
    ensures
        unquoted_rest(doubled(term) + seq!['"']) == Some(term),
    decreases term.len(),
{
    let s = doubled(term) + seq!['"'];
    if term.len() == 0 {
        assert(s =~= seq!['"']);
        assert(term =~= Seq::<char>::empty());
    } else {
        lemma_doubled_front(term);
        lemma_unquoted(term.skip(1));
        let rest = doubled(term.skip(1)) + seq!['"'];
        if term[0] == '"' {
            assert(s.skip(2) =~= rest);
        } else {
            assert(s.skip(1) =~= rest);
        }
        assert(seq![term[0]] + term.skip(1) =~= term);
    }
}

} // verus!
