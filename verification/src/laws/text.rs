//! What trimming, splitting, folding and ordering texts is for.

use crate::like;
use crate::order;
use crate::order::KeyView;
use crate::query;
use crate::text;
use vstd::prelude::*;

verus! {

/// The white space of Unicode.
pub open spec fn is_space(c: char) -> bool {
    let n = c as int;
    ||| n == 9 || n == 10 || n == 11 || n == 12 || n == 13
    ||| n == 32
    ||| n == 133
    ||| n == 160
    ||| n == 5760
    ||| 8192 <= n <= 8202
    ||| n == 8232 || n == 8233
    ||| n == 8239
    ||| n == 8287
    ||| n == 12288
}

/// Holds of texts without any character but white space.
pub open spec fn all_space(s: Seq<char>) -> bool {
    forall|i: int| 0 <= i < s.len() ==> is_space(#[trigger] s[i])
}

/// Holds of texts without white space.
pub open spec fn no_space(s: Seq<char>) -> bool {
    forall|i: int| 0 <= i < s.len() ==> !is_space(#[trigger] s[i])
}

/// White space is what Unicode says it is.
pub proof fn law_white_space(c: char)
    ensures
        text::white_space(c) == is_space(c),
{
}

/// Where trimming begins: behind the white space in front.
proof fn lemma_trim_start(s: Seq<char>) -> (a: int)
    ensures
        0 <= a <= s.len(),
        text::trim_start(s) == s.skip(a),
        forall|i: int| 0 <= i < a ==> is_space(#[trigger] s[i]),
        a < s.len() ==> !is_space(s[a]),
    decreases s.len(),
{
    if s.len() > 0 {
        law_white_space(s[0]);
    }
    if s.len() > 0 && text::white_space(s[0]) {
        let b = lemma_trim_start(s.skip(1));
        assert(s.skip(1).skip(b) =~= s.skip(b + 1));
        assert forall|i: int| 0 <= i < b + 1 implies is_space(#[trigger] s[i]) by {
            if i > 0 {
                assert(s.skip(1)[i - 1] == s[i]);
            }
        }
        b + 1
    } else {
        assert(s.skip(0) =~= s);
        0
    }
}

/// Where trimming ends: in front of the white space at the end.
proof fn lemma_trim_end(s: Seq<char>) -> (b: int)
    ensures
        0 <= b <= s.len(),
        text::trim_end(s) == s.take(b),
        forall|i: int| b <= i < s.len() ==> is_space(#[trigger] s[i]),
        b > 0 ==> !is_space(s[b - 1]),
    decreases s.len(),
{
    if s.len() > 0 {
        law_white_space(s.last());
    }
    if s.len() > 0 && text::white_space(s.last()) {
        let b = lemma_trim_end(s.drop_last());
        assert(s.drop_last().take(b) =~= s.take(b));
        assert forall|i: int| b <= i < s.len() implies is_space(#[trigger] s[i]) by {
            if i < s.len() - 1 {
                assert(s.drop_last()[i] == s[i]);
            }
        }
        b
    } else {
        assert(s.take(s.len() as int) =~= s);
        s.len() as int
    }
}

/// Trimming takes white space off both ends and nothing else: what is left is a part of
/// the text that neither begins nor ends with white space, and all around it was white
/// space.
pub proof fn law_trimming_takes_off_white_space(s: Seq<char>) -> (r: (int, int))
    ensures
        0 <= r.0 <= r.1 <= s.len(),
        text::trimmed(s) == s.subrange(r.0, r.1),
        forall|i: int| 0 <= i < r.0 ==> is_space(#[trigger] s[i]),
        forall|i: int| r.1 <= i < s.len() ==> is_space(#[trigger] s[i]),
        r.0 < r.1 ==> !is_space(s[r.0]) && !is_space(s[r.1 - 1]),
{
    let a = lemma_trim_start(s);
    let t = s.skip(a);
    let b = lemma_trim_end(t);
    assert(t.take(b) =~= s.subrange(a, a + b));
    assert forall|i: int| a + b <= i < s.len() implies is_space(#[trigger] s[i]) by {
        assert(t[i - a] == s[i]);
    }
    if b > 0 {
        assert(t[0] == s[a]);
        assert(t[b - 1] == s[a + b - 1]);
    }
    (a, a + b)
}

/// A text is blank exactly when it holds nothing but white space.
pub proof fn law_blank_texts_are_white_space(s: Seq<char>)
    ensures
        text::blank(s) == all_space(s),
{
    let r = law_trimming_takes_off_white_space(s);
    if r.0 < r.1 {
        assert(!is_space(s[r.0]));
    } else {
        assert forall|i: int| 0 <= i < s.len() implies is_space(#[trigger] s[i]) by {
            if i >= r.0 {
                assert(r.1 <= i);
            }
        }
    }
}

/// A text without surrounding white space is left as it is.
pub proof fn law_trimmed_texts_stay(s: Seq<char>)
    requires
        s.len() > 0 ==> !is_space(s[0]) && !is_space(s.last()),
    ensures
        text::trimmed(s) == s,
{
    let r = law_trimming_takes_off_white_space(s);
    if s.len() > 0 {
        assert(s[s.len() - 1] == s.last());
        assert(r.0 == 0);
        assert(r.1 == s.len());
    }
    assert(s.subrange(r.0, r.1) =~= s);
}

/// Two letters that are the same but for ASCII case.
pub open spec fn same_letter(a: char, b: char) -> bool {
    ||| a == b
    ||| 65 <= a as int <= 90 && b as int == a as int + 32
    ||| 65 <= b as int <= 90 && a as int == b as int + 32
}

/// Holds when a text begins with another, ASCII case aside.
pub open spec fn begins(prefix: Seq<char>, s: Seq<char>) -> bool {
    &&& prefix.len() <= s.len()
    &&& forall|i: int| 0 <= i < prefix.len() ==> same_letter(#[trigger] prefix[i], s[i])
}

/// A prefix is compared character by character, ASCII case aside, and no character of it
/// stands for another.
pub proof fn law_prefixes_are_literal(prefix: Seq<char>, s: Seq<char>)
    ensures
        like::starts_folded(prefix, s) == begins(prefix, s),
{
    if like::starts_folded(prefix, s) {
        assert forall|i: int| 0 <= i < prefix.len() implies same_letter(
            #[trigger] prefix[i],
            s[i],
        ) by {
            lemma_same_letter(prefix[i], s[i]);
        }
    }
    if begins(prefix, s) {
        assert forall|i: int| 0 <= i < prefix.len() implies like::folded(#[trigger] prefix[i])
            == like::folded(s[i]) by {
            lemma_same_letter(prefix[i], s[i]);
        }
    }
}

proof fn lemma_same_letter(a: char, b: char)
    ensures
        (like::folded(a) == like::folded(b)) == same_letter(a, b),
{
}

/// Texts are ordered like words in a dictionary, by the codes of their characters: the
/// first place where they differ decides, and a text comes before what it begins.
pub proof fn law_texts_are_ordered_by_their_first_difference(a: Seq<char>, b: Seq<char>, k: int)
    requires
        0 <= k <= a.len(),
        k <= b.len(),
        forall|i: int| 0 <= i < k ==> a[i] == #[trigger] b[i],
        k < a.len() && k < b.len() ==> a[k] != b[k],
    ensures
        order::text_le(a, b) <==> k == a.len() || (k < b.len() && (a[k] as int) < (b[k] as int)),
    decreases k,
{
    if k > 0 {
        assert(a[0] == b[0]);
        assert forall|i: int| 0 <= i < k - 1 implies a.skip(1)[i] == #[trigger] b.skip(1)[i] by {
            assert(a[i + 1] == b[i + 1]);
        }
        law_texts_are_ordered_by_their_first_difference(a.skip(1), b.skip(1), k - 1);
    }
}

/// Keys are ordered by their first part, then by the second, the third and the text.
pub proof fn law_keys_are_ordered_part_by_part(a: KeyView, b: KeyView)
    ensures
        a.first < b.first ==> order::key_le(a, b) && !order::key_le(b, a),
        a.first == b.first && a.second < b.second ==> order::key_le(a, b) && !order::key_le(b, a),
        a.first == b.first && a.second == b.second && a.third < b.third ==> order::key_le(a, b)
            && !order::key_le(b, a),
        a.first == b.first && a.second == b.second && a.third == b.third ==> order::key_le(a, b)
            == order::text_le(a.text, b.text),
{
}

/// Places keep the order of floating-point numbers, whose bits hold a sign and a magnitude:
/// of two positive numbers the one with more bits is the larger, of two negative ones the
/// smaller, and every negative number comes before every positive one.
pub proof fn law_places_keep_the_order_of_numbers(a: u64, b: u64)
    ensures
        a < 0x8000_0000_0000_0000 && b < 0x8000_0000_0000_0000 ==> (order::float_place(a)
            < order::float_place(b) <==> a < b),
        a >= 0x8000_0000_0000_0000 && b >= 0x8000_0000_0000_0000 ==> (order::float_place(a)
            < order::float_place(b) <==> a > b),
        a >= 0x8000_0000_0000_0000 && b < 0x8000_0000_0000_0000 ==> order::float_place(a)
            < order::float_place(b),
        order::float_place(0) == 0,
        i64::MIN <= order::float_place(a) <= i64::MAX,
{
}

/// A word is a word on its own.
pub proof fn law_a_word_is_one_word(w: Seq<char>)
    requires
        w.len() > 0,
        no_space(w),
    ensures
        query::words(w) == seq![w],
{
    lemma_word_len_all(w);
    law_white_space(w[0]);
    assert(!is_space(w[0]));
    assert(query::words(Seq::<char>::empty()) =~= Seq::empty());
    assert(w.take(w.len() as int) =~= w);
    assert(w.skip(w.len() as int) =~= Seq::empty());
    assert(query::words(w) =~= seq![w]);
}

proof fn lemma_word_len_all(w: Seq<char>)
    requires
        no_space(w),
    ensures
        query::word_len(w) == w.len(),
    decreases w.len(),
{
    if w.len() > 0 {
        law_white_space(w[0]);
        assert(!is_space(w[0]));
        assert forall|i: int| 0 <= i < w.skip(1).len() implies !is_space(
            #[trigger] w.skip(1)[i],
        ) by {
            assert(!is_space(w[i + 1]));
        }
        lemma_word_len_all(w.skip(1));
    }
}

proof fn lemma_word_len_until(a: Seq<char>, c: char, b: Seq<char>)
    requires
        is_space(c),
    ensures
        query::word_len(a + seq![c] + b) == query::word_len(a),
        query::word_len(a) <= a.len(),
    decreases a.len(),
{
    let s = a + seq![c] + b;
    law_white_space(c);
    if a.len() == 0 {
        assert(s[0] == c);
    } else {
        assert(s[0] == a[0]);
        assert(s.skip(1) =~= a.skip(1) + seq![c] + b);
        lemma_word_len_until(a.skip(1), c, b);
    }
}

/// White space separates words and is no part of them: the words of two texts with white
/// space between are those of the first and then those of the second.
pub proof fn law_white_space_separates_words(a: Seq<char>, c: char, b: Seq<char>)
    requires
        is_space(c),
    ensures
        query::words(a + seq![c] + b) == query::words(a) + query::words(b),
        query::words(Seq::<char>::empty()) == Seq::<Seq<char>>::empty(),
    decreases a.len(),
{
    let s = a + seq![c] + b;
    law_white_space(c);
    if a.len() == 0 {
        assert(s[0] == c);
        assert(s.skip(1) =~= b);
        assert(query::words(a) =~= Seq::empty());
        assert(query::words(s) =~= query::words(a) + query::words(b));
    } else if text::white_space(a[0]) {
        assert(s[0] == a[0]);
        assert(s.skip(1) =~= a.skip(1) + seq![c] + b);
        law_white_space_separates_words(a.skip(1), c, b);
    } else {
        assert(s[0] == a[0]);
        lemma_word_len_until(a, c, b);
        let n = query::word_len(a) as int;
        assert(n > 0);
        assert(s.take(n) =~= a.take(n));
        assert(s.skip(n) =~= a.skip(n) + seq![c] + b);
        law_white_space_separates_words(a.skip(n), c, b);
        assert(query::words(s) =~= query::words(a) + query::words(b));
    }
}

/// A query has words exactly when it is not blank.
pub proof fn law_only_blank_queries_have_no_words(s: Seq<char>)
    ensures
        (query::words(s).len() == 0) == all_space(s),
    decreases s.len(),
{
    if s.len() > 0 {
        law_white_space(s[0]);
        if text::white_space(s[0]) {
            law_only_blank_queries_have_no_words(s.skip(1));
            if all_space(s) {
                assert forall|i: int| 0 <= i < s.skip(1).len() implies is_space(
                    #[trigger] s.skip(1)[i],
                ) by {
                    assert(is_space(s[i + 1]));
                }
            }
            if all_space(s.skip(1)) {
                assert forall|i: int| 0 <= i < s.len() implies is_space(#[trigger] s[i]) by {
                    if i > 0 {
                        assert(s.skip(1)[i - 1] == s[i]);
                    }
                }
            }
        } else {
            assert(!is_space(s[0]));
        }
    }
}

/// A query is a quoted term per word, with the separator between them: that of one word is
/// the word in quotes, and that of more words is made of those of its parts.
pub proof fn law_queries_are_made_of_quoted_words(
    a: Seq<char>,
    c: char,
    w: Seq<char>,
    separator: Seq<char>,
    message: Seq<char>,
)
    requires
        is_space(c),
        w.len() > 0,
        no_space(w),
    ensures
        all_space(a) ==> query::match_expression(a, separator, message) == Err::<
            Seq<char>,
            Seq<char>,
        >(message),
        query::match_expression(w, separator, message) == Ok::<Seq<char>, Seq<char>>(
            query::quoted(w),
        ),
        !all_space(a) ==> query::match_expression(a, separator, message) is Ok
            && query::match_expression(a + seq![c] + w, separator, message) == Ok::<
            Seq<char>,
            Seq<char>,
        >(
            query::match_expression(a, separator, message)->Ok_0 + (separator + query::quoted(w)),
        ),
{
    law_a_word_is_one_word(w);
    law_white_space_separates_words(a, c, w);
    law_only_blank_queries_have_no_words(a);
    let t = query::words(a);
    let all = query::words(a + seq![c] + w);
    assert(all =~= t.push(w));
    assert(all.drop_last() =~= t);
    assert(all.last() == w);
}

/// Quoting doubles the quotes of a term and leaves the rest: a term without quotes stands
/// between two quotes as it is.
pub proof fn law_plain_terms_are_quoted_as_they_are(term: Seq<char>)
    requires
        forall|i: int| 0 <= i < term.len() ==> #[trigger] term[i] != '"',
    ensures
        query::quoted(term) == seq!['"'] + term + seq!['"'],
{
    lemma_doubled_plain(term);
}

proof fn lemma_doubled_plain(term: Seq<char>)
    requires
        forall|i: int| 0 <= i < term.len() ==> #[trigger] term[i] != '"',
    ensures
        query::doubled(term) == term,
    decreases term.len(),
{
    if term.len() > 0 {
        let front = term.drop_last();
        assert forall|i: int| 0 <= i < front.len() implies #[trigger] front[i] != '"' by {
            assert(front[i] == term[i]);
        }
        lemma_doubled_plain(front);
        assert(term[term.len() - 1] == term.last());
        assert(front + seq![term.last()] =~= term);
    } else {
        assert(query::doubled(term) =~= term);
    }
}

/// Holds of the texts of digits.
pub open spec fn is_digits(s: Seq<char>) -> bool {
    s.len() > 0 && forall|i: int| 0 <= i < s.len() ==> 48 <= (#[trigger] s[i]) as int <= 57
}

/// A digit more makes a number ten times as large, and adds its own value.
pub proof fn law_digits_count_in_tens(s: Seq<char>, c: char)
    ensures
        text::digits_value(Seq::<char>::empty()) == 0,
        text::digits_value(s.push(c)) == 10 * text::digits_value(s) + (c as int - 48),
{
    assert(s.push(c).drop_last() =~= s);
}

/// A number is written in digits that stand for it, with no zero in front, and a minus in
/// front of a negative one.
pub proof fn law_numbers_are_written_in_decimal(n: int)
    requires
        n >= 0,
    ensures
        is_digits(text::decimal(n)),
        text::digits_value(text::decimal(n)) == n,
        n > 0 ==> text::decimal(n)[0] != '0',
        n > 0 ==> text::decimal(-n) == seq!['-'] + text::decimal(n),
    decreases n,
{
    if n >= 10 {
        law_numbers_are_written_in_decimal(n / 10);
        let d = (0x30 + n % 10) as u8 as char;
        law_digits_count_in_tens(text::decimal(n / 10), d);
        assert(text::decimal(n) == text::decimal(n / 10).push(d));
        assert(n == 10 * (n / 10) + n % 10);
    } else {
        let d = (0x30 + n) as u8 as char;
        law_digits_count_in_tens(Seq::empty(), d);
        assert(text::decimal(n) =~= Seq::<char>::empty().push(d));
    }
}

/// A size is read from digits, with or without a plus in front, and what a number is
/// written as reads as that number.
pub proof fn law_sizes_are_read_from_digits(s: Seq<char>, n: int)
    requires
        0 <= n <= usize::MAX,
    ensures
        text::size_value(text::decimal(n)) == Some(n),
        is_digits(s) ==> text::size_value(s) == (if text::digits_value(s) <= usize::MAX {
            Some(text::digits_value(s))
        } else {
            None
        }),
        is_digits(s) ==> text::size_value(seq!['+'] + s) == text::size_value(s),
        !is_digits(s) && !(s.len() > 0 && s[0] == '+' && is_digits(s.skip(1)))
            ==> text::size_value(s) is None,
{
    law_numbers_are_written_in_decimal(n);
    let d = text::decimal(n);
    assert(text::all_digits(d) == is_digits(d));
    assert(text::all_digits(s) == is_digits(s));
    assert(text::all_digits(s.skip(1)) == is_digits(s.skip(1)));
    assert((seq!['+'] + s).skip(1) =~= s);
    if is_digits(s) {
        assert(s[0] != '+');
    }
    assert(d[0] != '+');
}

/// A pattern is read character by character: a percent sign stands for any text, an underscore
/// for any character, what stands behind the escape for itself, and any other character for
/// itself, ASCII case aside.
pub proof fn law_patterns_are_read_character_by_character(
    pattern: Seq<char>,
    c: char,
    s: Seq<char>,
    escape: Option<char>,
)
    ensures
        like::like(Seq::<char>::empty(), s, escape) <==> s.len() == 0,
        escape != Some('%') ==> (like::like(seq!['%'] + pattern, s, escape) <==> exists|k: int|
            0 <= k <= s.len() && like::like(pattern, #[trigger] s.skip(k), escape)),
        escape != Some('_') ==> (like::like(seq!['_'] + pattern, s, escape) <==> s.len() > 0
            && like::like(pattern, s.skip(1), escape)),
        escape != Some(c) && c != '%' && c != '_' ==> (like::like(seq![c] + pattern, s, escape)
            <==> s.len() > 0 && same_letter(c, s[0]) && like::like(pattern, s.skip(1), escape)),
        escape is Some ==> (like::like(seq![escape->0, c] + pattern, s, escape) <==> s.len() > 0
            && same_letter(c, s[0]) && like::like(pattern, s.skip(1), escape)),
{
    if s.len() > 0 {
        lemma_same_letter(c, s[0]);
    }
    assert((seq!['_'] + pattern).skip(1) =~= pattern);
    assert((seq![c] + pattern).skip(1) =~= pattern);
    if escape is Some {
        assert((seq![escape->0, c] + pattern).skip(2) =~= pattern);
    }
    if escape != Some('%') {
        lemma_percent(pattern, s, escape);
    }
}

proof fn lemma_percent(pattern: Seq<char>, s: Seq<char>, escape: Option<char>)
    requires
        escape != Some('%'),
    ensures
        like::like(seq!['%'] + pattern, s, escape) <==> exists|k: int|
            0 <= k <= s.len() && like::like(pattern, #[trigger] s.skip(k), escape),
    decreases s.len(),
{
    let whole = seq!['%'] + pattern;
    assert(whole.skip(1) =~= pattern);
    assert(whole[0] == '%');
    assert(s.skip(0) =~= s);
    if s.len() > 0 {
        lemma_percent(pattern, s.skip(1), escape);
        if like::like(whole, s.skip(1), escape) {
            let k = choose|k: int|
                0 <= k <= s.skip(1).len() && like::like(
                    pattern,
                    #[trigger] s.skip(1).skip(k),
                    escape,
                );
            assert(s.skip(1).skip(k) =~= s.skip(k + 1));
            assert(like::like(pattern, s.skip(k + 1), escape));
        }
        if exists|k: int|
            0 <= k <= s.len() && like::like(pattern, #[trigger] s.skip(k), escape) {
            let k = choose|k: int|
                0 <= k <= s.len() && like::like(pattern, #[trigger] s.skip(k), escape);
            if k > 0 {
                assert(s.skip(1).skip(k - 1) =~= s.skip(k));
                assert(like::like(pattern, s.skip(1).skip(k - 1), escape));
            }
        }
    }
}

/// Escaping puts a backslash in front of what would be read as a pattern, and nothing else.
pub proof fn law_patterns_are_escaped(s: Seq<char>, c: char)
    ensures
        like::escaped(Seq::<char>::empty()).len() == 0,
        like::escaped(s.push(c)) == like::escaped(s) + (if c == '_' || c == '%' || c == '\\' {
            seq!['\\', c]
        } else {
            seq![c]
        }),
{
    assert(s.push(c).drop_last() =~= s);
}

/// The length of a text in bytes is that of its encoding.
pub proof fn law_bytes_are_those_of_the_encoding(s: Seq<char>)
    ensures
        text::byte_len(s) == vstd::utf8::encode_utf8(s).len(),
{
}

} // verus!
