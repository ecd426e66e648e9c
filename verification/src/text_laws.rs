//! How texts are taken apart and put together, and how numbers are read.
use vstd::prelude::*;
use vstd::string::*;
use crate::number::{
    all_digits, decimal, digits_value, is_digit, lemma_decimal_digits, unsigned_value,
};
use crate::text::{
    after_prefix, is_white_space, joined, lines_of, lowered, split_all, split_first, split_last,
    trim_end, trim_start, trimmed, word_len, words_of,
};

verus! {

/// A text that holds a character is the part before its first occurrence, the
/// character, and the rest.
pub proof fn split_first_takes_apart(s: Seq<char>, c: char)
    ensures
        match split_first(s, c) {
            Some((head, tail)) => s == head + seq![c] + tail && !head.contains(c),
            None => !s.contains(c),
        },
        forall|head: Seq<char>, tail: Seq<char>|
            s == #[trigger] (head + seq![c] + tail) && !head.contains(c) ==> split_first(s, c)
                == Some((head, tail)),
{
    s.index_of_first_ensures(c);
    match split_first(s, c) {
        Some((head, tail)) => {
            assert(s =~= head + seq![c] + tail);
        },
        None => {},
    }
    assert forall|head: Seq<char>, tail: Seq<char>|
        s == #[trigger] (head + seq![c] + tail) && !head.contains(c) implies split_first(s, c)
        == Some((head, tail)) by {
        let at = head.len() as int;
        assert(s[at] == c);
        let found = s.index_of_first(c)->0;
        if found < at {
            assert(head[found] == c);
        }
        assert(found == at);
        assert(s.take(at) =~= head);
        assert(s.skip(at + 1) =~= tail);
    }
}

/// A text that holds a character is the part before its last occurrence, the
/// character, and the rest.
pub proof fn split_last_takes_apart(s: Seq<char>, c: char)
    ensures
        match split_last(s, c) {
            Some((head, tail)) => s == head + seq![c] + tail && !tail.contains(c),
            None => !s.contains(c),
        },
        forall|head: Seq<char>, tail: Seq<char>|
            s == #[trigger] (head + seq![c] + tail) && !tail.contains(c) ==> split_last(s, c)
                == Some((head, tail)),
{
    s.index_of_last_ensures(c);
    match split_last(s, c) {
        Some((head, tail)) => {
            assert(s =~= head + seq![c] + tail);
            if tail.contains(c) {
                let k = choose|k: int| 0 <= k < tail.len() && tail[k] == c;
                assert(s[head.len() + 1 + k] == c);
            }
        },
        None => {},
    }
    assert forall|head: Seq<char>, tail: Seq<char>|
        s == #[trigger] (head + seq![c] + tail) && !tail.contains(c) implies split_last(s, c)
        == Some((head, tail)) by {
        let at = head.len() as int;
        assert(s[at] == c);
        let found = s.index_of_last(c)->0;
        if found > at {
            assert(tail[found - at - 1] == c);
        }
        assert(found == at);
        assert(s.take(at) =~= head);
        assert(s.skip(at + 1) =~= tail);
    }
}

proof fn lemma_joined_first(first: Seq<char>, rest: Seq<Seq<char>>, sep: Seq<char>)
    requires
        rest.len() > 0,
    ensures
        joined(seq![first] + rest, sep) == first + sep + joined(rest, sep),
    decreases rest.len(),
{
    let all = seq![first] + rest;
    assert(all.last() == rest.last());
    if rest.len() == 1 {
        assert(all.drop_last() =~= seq![first]);
        assert(joined(seq![first], sep) == first);
        assert(joined(all, sep) =~= first + sep + joined(rest, sep));
    } else {
        assert(all.drop_last() =~= seq![first] + rest.drop_last());
        lemma_joined_first(first, rest.drop_last(), sep);
        assert(joined(all, sep) =~= first + sep + joined(rest, sep));
    }
}

/// The pieces of a text between the occurrences of a character, put together with
/// that character, are the text. None of them holds the character.
pub proof fn pieces_join_to_the_text(s: Seq<char>, c: char)
    ensures
        joined(split_all(s, c), seq![c]) == s,
        split_all(s, c).len() > 0,
        forall|i: int|
            0 <= i < split_all(s, c).len() ==> !(#[trigger] split_all(s, c)[i]).contains(c),
    decreases s.len(),
{
    split_first_takes_apart(s, c);
    match split_first(s, c) {
        Some((head, tail)) => {
            assert(s.len() == head.len() + 1 + tail.len());
            pieces_join_to_the_text(tail, c);
            lemma_joined_first(head, split_all(tail, c), seq![c]);
            assert(joined(split_all(s, c), seq![c]) =~= s);
            assert forall|i: int| 0 <= i < split_all(s, c).len() implies !(#[trigger] split_all(
                s,
                c,
            )[i]).contains(c) by {
                if i > 0 {
                    assert(split_all(s, c)[i] == split_all(tail, c)[i - 1]);
                }
            }
        },
        None => {},
    }
}

/// Pieces without a character that are put together with it are taken apart
/// again.
pub proof fn joined_pieces_are_split(parts: Seq<Seq<char>>, c: char)
    requires
        parts.len() > 0,
        forall|i: int| 0 <= i < parts.len() ==> !(#[trigger] parts[i]).contains(c),
    ensures
        split_all(joined(parts, seq![c]), c) == parts,
    decreases parts.len(),
{
    let whole = joined(parts, seq![c]);
    split_first_takes_apart(whole, c);
    if parts.len() == 1 {
        assert(parts =~= seq![parts[0]]);
        assert(!parts[0].contains(c));
        match split_first(whole, c) {
            Some((head, tail)) => {
                assert(whole[head.len() as int] == c);
                assert(whole.contains(c));
            },
            None => {},
        }
    } else {
        let rest = parts.drop_first();
        assert(parts =~= seq![parts[0]] + rest);
        lemma_joined_first(parts[0], rest, seq![c]);
        assert(forall|i: int| 0 <= i < rest.len() ==> rest[i] == parts[i + 1]);
        joined_pieces_are_split(rest, c);
        assert(whole == parts[0] + seq![c] + joined(rest, seq![c]));
        assert(!parts[0].contains(c));
        assert(split_first(whole, c) == Some((parts[0], joined(rest, seq![c]))));
        assert(split_all(whole, c) =~= parts);
    }
}

/// The characters that count as white space are these, and no others.
pub proof fn white_space_characters(c: char)
    ensures
        is_white_space(c) <==> seq![
            '\t',
            '\n',
            '\u{b}',
            '\u{c}',
            '\r',
            ' ',
            '\u{85}',
            '\u{a0}',
            '\u{1680}',
            '\u{2000}',
            '\u{2001}',
            '\u{2002}',
            '\u{2003}',
            '\u{2004}',
            '\u{2005}',
            '\u{2006}',
            '\u{2007}',
            '\u{2008}',
            '\u{2009}',
            '\u{200a}',
            '\u{2028}',
            '\u{2029}',
            '\u{202f}',
            '\u{205f}',
            '\u{3000}',
        ].contains(c),
{
    let all = seq![
        '\t',
        '\n',
        '\u{b}',
        '\u{c}',
        '\r',
        ' ',
        '\u{85}',
        '\u{a0}',
        '\u{1680}',
        '\u{2000}',
        '\u{2001}',
        '\u{2002}',
        '\u{2003}',
        '\u{2004}',
        '\u{2005}',
        '\u{2006}',
        '\u{2007}',
        '\u{2008}',
        '\u{2009}',
        '\u{200a}',
        '\u{2028}',
        '\u{2029}',
        '\u{202f}',
        '\u{205f}',
        '\u{3000}',
    ];
    if is_white_space(c) {
        let i = if c <= '\u{d}' {
            c as int - 9
        } else if c == ' ' {
            5
        } else if c == '\u{85}' {
            6
        } else if c == '\u{a0}' {
            7
        } else if c == '\u{1680}' {
            8
        } else if c <= '\u{200a}' {
            9 + (c as int - 0x2000)
        } else if c == '\u{2028}' {
            20
        } else if c == '\u{2029}' {
            21
        } else if c == '\u{202f}' {
            22
        } else if c == '\u{205f}' {
            23
        } else {
            24
        };
        assert(all[i] == c);
    }
}

/// A text consists of white space.
pub open spec fn is_blank(s: Seq<char>) -> bool {
    forall|i: int| 0 <= i < s.len() ==> is_white_space(#[trigger] s[i])
}

/// A text is a word: it is not empty and holds no white space.
pub open spec fn is_word(s: Seq<char>) -> bool {
    &&& s.len() > 0
    &&& forall|i: int| 0 <= i < s.len() ==> !is_white_space(#[trigger] s[i])
}

proof fn lemma_trim_start_takes(s: Seq<char>)
    ensures
        trim_start(s).len() <= s.len(),
        trim_start(s) == s.skip(s.len() - trim_start(s).len()),
        is_blank(s.take(s.len() - trim_start(s).len())),
        trim_start(s).len() > 0 ==> !is_white_space(trim_start(s)[0]),
    decreases s.len(),
{
    if s.len() > 0 && is_white_space(s[0]) {
        let rest = s.drop_first();
        lemma_trim_start_takes(rest);
        let n = s.len() - trim_start(s).len();
        assert(s.skip(n) =~= rest.skip(n - 1));
        assert forall|i: int| 0 <= i < n implies is_white_space(#[trigger] s.take(n)[i]) by {
            if i > 0 {
                assert(rest.take(n - 1)[i - 1] == s[i]);
            }
        }
    } else {
        assert(s.skip(0) =~= s);
    }
}

proof fn lemma_trim_end_takes(s: Seq<char>)
    ensures
        trim_end(s).len() <= s.len(),
        trim_end(s) == s.take(trim_end(s).len() as int),
        is_blank(s.skip(trim_end(s).len() as int)),
        trim_end(s).len() > 0 ==> !is_white_space(trim_end(s).last()),
    decreases s.len(),
{
    if s.len() > 0 && is_white_space(s.last()) {
        let rest = s.drop_last();
        lemma_trim_end_takes(rest);
        let n = trim_end(s).len() as int;
        assert(s.take(n) =~= rest.take(n));
        assert forall|i: int| 0 <= i < s.len() - n implies is_white_space(
            #[trigger] s.skip(n)[i],
        ) by {
            if i < rest.len() - n {
                assert(rest.skip(n)[i] == s[n + i]);
            }
        }
    } else {
        assert(s.take(s.len() as int) =~= s);
    }
}

/// A text is white space, the trimmed text and white space; the trimmed text
/// neither starts nor ends with white space.
pub proof fn trimming_takes_only_white_space(s: Seq<char>)
    ensures
        exists|from: int, to: int|
            0 <= from <= to <= s.len() && trimmed(s) == #[trigger] s.subrange(from, to)
                && is_blank(s.take(from)) && is_blank(s.skip(to)),
        trimmed(s).len() > 0 ==> !is_white_space(trimmed(s)[0]) && !is_white_space(
            trimmed(s).last(),
        ),
        trimmed(s).len() == 0 <==> is_blank(s),
{
    lemma_trim_start_takes(s);
    let t = trim_start(s);
    lemma_trim_end_takes(t);
    let from = s.len() - t.len();
    let to = from + trimmed(s).len();
    assert(trimmed(s) =~= s.subrange(from, to));
    assert forall|i: int| 0 <= i < s.len() - to implies is_white_space(#[trigger] s.skip(to)[i]) by {
        assert(t.skip(trimmed(s).len() as int)[i] == s[to + i]);
    }
    if trimmed(s).len() == 0 {
        assert forall|i: int| 0 <= i < s.len() implies is_white_space(#[trigger] s[i]) by {
            if i < from {
                assert(s.take(from)[i] == s[i]);
            } else {
                assert(s.skip(to)[i - to] == s[i]);
            }
        }
    } else {
        assert(trimmed(s)[0] == t[0]);
        assert(trimmed(s)[0] == s[from]);
    }
}

proof fn lemma_trim_blank(gap: Seq<char>, rest: Seq<char>)
    requires
        is_blank(gap),
    ensures
        trim_start(gap + rest) == trim_start(rest),
    decreases gap.len(),
{
    if gap.len() == 0 {
        assert(gap + rest =~= rest);
    } else {
        assert((gap + rest)[0] == gap[0]);
        assert(is_white_space(gap[0]));
        assert((gap + rest).drop_first() =~= gap.drop_first() + rest);
        assert(forall|i: int| 0 <= i < gap.drop_first().len() ==> gap.drop_first()[i] == gap[i + 1]);
        lemma_trim_blank(gap.drop_first(), rest);
    }
}

proof fn lemma_word_ends(word: Seq<char>, rest: Seq<char>)
    requires
        forall|i: int| 0 <= i < word.len() ==> !is_white_space(#[trigger] word[i]),
        rest.len() == 0 || is_white_space(rest[0]),
    ensures
        word_len(word + rest) == word.len(),
    decreases word.len(),
{
    if word.len() == 0 {
        assert(word + rest =~= rest);
    } else {
        assert((word + rest)[0] == word[0]);
        assert((word + rest).drop_first() =~= word.drop_first() + rest);
        assert(forall|i: int|
            0 <= i < word.drop_first().len() ==> word.drop_first()[i] == word[i + 1]);
        lemma_word_ends(word.drop_first(), rest);
    }
}

/// A text of blanks has no words. Blanks before a text do not count. A word with
/// nothing behind it is the only one; a word before a blank comes first, and the
/// words of the rest follow.
pub proof fn words_stand_between_blanks(gap: Seq<char>, word: Seq<char>, rest: Seq<char>)
    requires
        is_blank(gap),
        is_word(word),
    ensures
        words_of(gap).len() == 0,
        words_of(gap + rest) == words_of(rest),
        words_of(word) == seq![word],
        rest.len() > 0 && is_white_space(rest[0]) ==> words_of(word + rest) == seq![word]
            + words_of(rest),
{
    lemma_trim_blank(gap, rest);
    lemma_trim_blank(gap, Seq::empty());
    assert(gap + Seq::<char>::empty() =~= gap);
    assert(!is_white_space(word[0]));
    lemma_word_ends(word, Seq::empty());
    assert(word + Seq::<char>::empty() =~= word);
    assert(word.take(word.len() as int) =~= word);
    assert(word.skip(word.len() as int) =~= Seq::empty());
    assert(words_of(Seq::<char>::empty()) =~= Seq::empty());
    assert(words_of(word) =~= seq![word]);
    if rest.len() > 0 && is_white_space(rest[0]) {
        let s = word + rest;
        assert(s[0] == word[0]);
        lemma_word_ends(word, rest);
        assert(s.take(word.len() as int) =~= word);
        assert(s.skip(word.len() as int) =~= rest);
    }
}

/// An empty text has no lines, and a text without a line feed is its only line. A
/// line feed ends a line, with or without a carriage return before it, and the
/// lines of the rest follow.
pub proof fn lines_end_with_line_feeds(line: Seq<char>, rest: Seq<char>)
    requires
        !line.contains('\n'),
    ensures
        lines_of(Seq::<char>::empty()).len() == 0,
        line.len() > 0 ==> lines_of(line) == seq![line],
        line.len() == 0 || line.last() != '\r' ==> lines_of(line + seq!['\n'] + rest) == seq![line]
            + lines_of(rest),
        lines_of(line + seq!['\r', '\n'] + rest) == seq![line] + lines_of(rest),
{
    split_first_takes_apart(Seq::<char>::empty(), '\n');
    split_first_takes_apart(line, '\n');
    match split_first(line, '\n') {
        Some((head, tail)) => {
            assert(line[head.len() as int] == '\n');
        },
        None => {},
    }
    match split_first(Seq::<char>::empty(), '\n') {
        Some((head, tail)) => {
            assert((head + seq!['\n'] + tail).len() > 0);
        },
        None => {},
    }
    let plain = line + seq!['\n'] + rest;
    split_first_takes_apart(plain, '\n');
    assert(split_first(plain, '\n') == Some((line, rest)));
    let long = line.push('\r');
    let with_return = line + seq!['\r', '\n'] + rest;
    assert(with_return =~= long + seq!['\n'] + rest);
    assert(!long.contains('\n')) by {
        if long.contains('\n') {
            let k = choose|k: int| 0 <= k < long.len() && long[k] == '\n';
            assert(line[k] == '\n');
        }
    }
    split_first_takes_apart(with_return, '\n');
    assert(split_first(with_return, '\n') == Some((long, rest)));
    assert(long.drop_last() =~= line);
}

/// What follows a prefix is what was put behind it, and only texts with the
/// prefix have something that follows it.
pub proof fn prefix_is_taken_off(prefix: Seq<char>, rest: Seq<char>, s: Seq<char>)
    ensures
        after_prefix(prefix + rest, prefix) == Some(rest),
        match after_prefix(s, prefix) {
            Some(left) => s == prefix + left,
            None => s != prefix + rest,
        },
{
    assert((prefix + rest).skip(prefix.len() as int) =~= rest);
    assert(prefix.is_prefix_of(prefix + rest)) by {
        assert((prefix + rest).take(prefix.len() as int) =~= prefix);
    }
    if prefix.is_prefix_of(s) {
        assert(s =~= prefix + s.skip(prefix.len() as int));
    }
}

/// Made small, a text keeps its length; the 26 capitals become the small letters,
/// and everything else stays. Made small again, it stays as it is.
pub proof fn small_letters_replace_capitals(s: Seq<char>, at: int)
    requires
        0 <= at < s.len(),
    ensures
        lowered(s).len() == s.len(),
        'A' <= s[at] <= 'Z' ==> lowered(s)[at] as int == s[at] as int + 32,
        !('A' <= s[at] <= 'Z') ==> lowered(s)[at] == s[at],
        lowered(lowered(s)) == lowered(s),
{
    assert(lowered(lowered(s)) =~= lowered(s));
}

/// A number is written with digits alone, without leading zeros.
pub proof fn decimal_has_no_leading_zero(n: nat)
    ensures
        decimal(n).len() > 0,
        forall|i: int| 0 <= i < decimal(n).len() ==> '0' <= #[trigger] decimal(n)[i] <= '9',
        n > 0 ==> decimal(n)[0] != '0',
        n == 0 ==> decimal(n) == "0"@,
        n < 10 ==> decimal(n).len() == 1,
    decreases n,
{
    lemma_decimal_digits(n);
    reveal_strlit("0");
    if n == 0 {
        assert(decimal(n) =~= "0"@);
    }
    if n >= 10 {
        decimal_has_no_leading_zero(n / 10);
        assert(decimal(n)[0] == decimal(n / 10)[0]);
    }
}

/// Reading a number is reading its digits one by one: a digit stands for itself,
/// and a digit behind a number makes it ten times as large and adds to it, as far
/// as the limit allows. A plus sign may stand before the digits. Nothing else is
/// a number.
pub proof fn numbers_are_read_digit_by_digit(s: Seq<char>, c: char, max: nat)
    ensures
        unsigned_value(Seq::<char>::empty(), max) is None,
        is_digit(c) && c as int - 48 <= max ==> unsigned_value(seq![c], max) == Some(
            (c as int - 48) as nat,
        ),
        !is_digit(c) ==> unsigned_value(s.push(c), max) is None,
        match unsigned_value(s, max) {
            Some(n) => is_digit(c) ==> unsigned_value(s.push(c), max) == (if 10 * n + (c as int
                - 48) <= max {
                Some((10 * n + (c as int - 48)) as nat)
            } else {
                None
            }),
            None => true,
        },
        s.len() > 0 && s[0] != '+' ==> unsigned_value(seq!['+'] + s, max) == unsigned_value(s, max),
        unsigned_value(s, max) matches Some(n) ==> n <= max,
        is_digit(c) <==> '0' <= c <= '9',
{
    reveal_with_fuel(digits_value, 2);
    assert(seq![c].drop_last() =~= Seq::empty());
    let longer = s.push(c);
    assert(longer.last() == c);
    assert(longer.drop_last() =~= s);
    if s.len() > 0 && s[0] == '+' {
        assert(longer.drop_first() =~= s.drop_first().push(c));
        assert(s.drop_first().push(c).drop_last() =~= s.drop_first());
    }
    if !is_digit(c) {
        let digits = if longer[0] == '+' {
            longer.drop_first()
        } else {
            longer
        };
        if digits.len() > 0 {
            assert(digits[digits.len() - 1] == c);
        }
    }
    match unsigned_value(s, max) {
        Some(n) => {
            let digits = if s[0] == '+' {
                s.drop_first()
            } else {
                s
            };
            let more = digits.push(c);
            assert(more.drop_last() =~= digits);
            if is_digit(c) {
                assert(all_digits(more)) by {
                    assert forall|i: int| 0 <= i < more.len() implies is_digit(
                        #[trigger] more[i],
                    ) by {
                        if i < digits.len() {
                            assert(more[i] == digits[i]);
                        }
                    }
                }
            }
        },
        None => {},
    }
    if s.len() > 0 && s[0] != '+' {
        assert((seq!['+'] + s).drop_first() =~= s);
    }
}

} // verus!
