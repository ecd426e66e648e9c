//! Text as sequences of characters: comparison, splitting, trimming, joining.
use vstd::prelude::*;
use vstd::string::*;
use vstd::utf8::*;

verus! {

/// `String::push` appends one character at the end.
pub assume_specification[ String::push ](s: &mut String, c: char)
    ensures
        final(s)@ == old(s)@.push(c),
;

/// The text that `String::from_utf8_lossy` makes of bytes.
pub uninterp spec fn utf8_lossy(bytes: Seq<u8>) -> Seq<char>;

/// `String::from_utf8_lossy` decodes UTF-8 and puts a replacement character for
/// what is not UTF-8, so valid UTF-8 is decoded as it is.
#[verifier::external_body]
pub(crate) fn lossy_text(bytes: &[u8]) -> (text: String)
    ensures
        text@ == utf8_lossy(bytes@),
        valid_utf8(bytes@) ==> text@ == decode_utf8(bytes@),
{
    String::from_utf8_lossy(bytes).into_owned()
}

/// Text equality.
pub fn text_eq(a: &str, b: &str) -> (same: bool)
    ensures
        same == (a@ == b@),
{
    let x = a.as_bytes();
    let y = b.as_bytes();
    proof {
        encode_utf8_decode_utf8(a@);
        encode_utf8_decode_utf8(b@);
    }
    if x.len() != y.len() {
        return false;
    }
    let mut i: usize = 0;
    while i < x.len()
        invariant
            x@.len() == y@.len(),
            x@ == encode_utf8(a@),
            y@ == encode_utf8(b@),
            i <= x@.len(),
            forall|j: int| 0 <= j < i ==> x@[j] == y@[j],
        decreases x@.len() - i,
    {
        if x[i] != y[i] {
            return false;
        }
        i = i + 1;
    }
    assert(x@ =~= y@);
    true
}

/// The characters of a text.
pub fn chars_of(s: &str) -> (chars: Vec<char>)
    ensures
        chars@ == s@,
{
    let mut chars: Vec<char> = Vec::new();
    for c in it: s.chars()
        invariant
            it.seq() == s@,
            chars@ == s@.take(it.index() as int),
    {
        chars.push(c);
    }
    assert(s@.take(s@.len() as int) =~= s@);
    chars
}

/// The text made of the given characters.
pub fn text_of(chars: &[char]) -> (s: String)
    ensures
        s@ == chars@,
{
    let mut s = String::new();
    let mut i: usize = 0;
    while i < chars.len()
        invariant
            i <= chars@.len(),
            s@ == chars@.take(i as int),
        decreases chars@.len() - i,
    {
        s.push(chars[i]);
        i = i + 1;
    }
    assert(chars@.take(i as int) =~= chars@);
    s
}

/// The text before and the text after the first `c`, if there is one.
pub open spec fn split_first(s: Seq<char>, c: char) -> Option<(Seq<char>, Seq<char>)> {
    match s.index_of_first(c) {
        Some(i) => Some((s.take(i), s.skip(i + 1))),
        None => None,
    }
}

/// The text before and the text after the last `c`, if there is one.
pub open spec fn split_last(s: Seq<char>, c: char) -> Option<(Seq<char>, Seq<char>)> {
    match s.index_of_last(c) {
        Some(i) => Some((s.take(i), s.skip(i + 1))),
        None => None,
    }
}

/// The pieces of a text between the occurrences of `c`.
pub open spec fn split_all(s: Seq<char>, c: char) -> Seq<Seq<char>>
    decreases s.len(),
    via split_all_shrinks
{
    match split_first(s, c) {
        Some((head, tail)) => seq![head] + split_all(tail, c),
        None => seq![s],
    }
}

#[via_fn]
proof fn split_all_shrinks(s: Seq<char>, c: char) {
    s.index_of_first_ensures(c);
}

/// Position of the first `c` at or after `from`.
pub fn position_from(chars: &[char], c: char, from: usize) -> (found: Option<usize>)
    requires
        from <= chars@.len(),
    ensures
        match found {
            Some(i) => chars@.skip(from as int).index_of_first(c) == Some(i - from) && from <= i
                < chars@.len(),
            None => chars@.skip(from as int).index_of_first(c) is None,
        },
{
    let ghost rest = chars@.skip(from as int);
    proof {
        rest.index_of_first_ensures(c);
    }
    let mut i: usize = from;
    while i < chars.len()
        invariant
            from <= i <= chars@.len(),
            rest == chars@.skip(from as int),
            forall|j: int| 0 <= j < i - from ==> rest[j] != c,
            match rest.index_of_first(c) {
                Some(k) => 0 <= k < rest.len() && rest[k] == c && forall|j: int|
                    0 <= j < k ==> rest[j] != c,
                None => !rest.contains(c),
            },
        decreases chars@.len() - i,
    {
        assert(rest[i - from] == chars@[i as int]);
        if chars[i] == c {
            assert(rest.contains(c));
            return Some(i);
        }
        i = i + 1;
    }
    None
}

/// Position of the last `c`.
pub fn position_last(chars: &[char], c: char) -> (found: Option<usize>)
    ensures
        match found {
            Some(i) => chars@.index_of_last(c) == Some(i as int) && i < chars@.len(),
            None => chars@.index_of_last(c) is None,
        },
{
    proof {
        chars@.index_of_last_ensures(c);
    }
    let mut n: usize = chars.len();
    while n > 0
        invariant
            n <= chars@.len(),
            forall|j: int| n <= j < chars@.len() ==> chars@[j] != c,
            match chars@.index_of_last(c) {
                Some(k) => 0 <= k < chars@.len() && chars@[k] == c && forall|j: int|
                    k < j < chars@.len() ==> chars@[j] != c,
                None => !chars@.contains(c),
            },
        decreases n,
    {
        n = n - 1;
        if chars[n] == c {
            return Some(n);
        }
    }
    None
}

/// Splits a text at the first `c`.
pub fn split_once(s: &str, c: char) -> (parts: Option<(String, String)>)
    ensures
        match parts {
            Some((head, tail)) => split_first(s@, c) == Some((head@, tail@)),
            None => split_first(s@, c) is None,
        },
{
    let chars = chars_of(s);
    assert(s@.skip(0) =~= s@);
    let n: usize = chars.len();
    match position_from(chars.as_slice(), c, 0) {
        Some(i) => {
            let head = text_of(vstd::slice::slice_subrange(chars.as_slice(), 0, i));
            let tail = text_of(vstd::slice::slice_subrange(chars.as_slice(), i + 1, n));
            assert(head@ =~= s@.take(i as int));
            assert(tail@ =~= s@.skip(i + 1));
            Some((head, tail))
        },
        None => None,
    }
}

/// Splits a text at the last `c`.
pub fn rsplit_once(s: &str, c: char) -> (parts: Option<(String, String)>)
    ensures
        match parts {
            Some((head, tail)) => split_last(s@, c) == Some((head@, tail@)),
            None => split_last(s@, c) is None,
        },
{
    let chars = chars_of(s);
    let n: usize = chars.len();
    match position_last(chars.as_slice(), c) {
        Some(i) => {
            let head = text_of(vstd::slice::slice_subrange(chars.as_slice(), 0, i));
            let tail = text_of(vstd::slice::slice_subrange(chars.as_slice(), i + 1, n));
            assert(head@ =~= s@.take(i as int));
            assert(tail@ =~= s@.skip(i + 1));
            Some((head, tail))
        },
        None => None,
    }
}

/// The views of a sequence of strings.
pub open spec fn texts(v: Seq<String>) -> Seq<Seq<char>> {
    v.map_values(|s: String| s@)
}

/// The pieces of a text between the occurrences of `c`.
pub fn split(s: &str, c: char) -> (pieces: Vec<String>)
    ensures
        texts(pieces@) == split_all(s@, c),
{
    let chars = chars_of(s);
    let mut pieces: Vec<String> = Vec::new();
    let mut from: usize = 0;
    assert(s@.skip(0) =~= s@);
    assert(texts(pieces@) + split_all(s@, c) =~= split_all(s@, c));
    loop
        invariant
            chars@ == s@,
            from <= chars@.len(),
            texts(pieces@) + split_all(s@.skip(from as int), c) == split_all(s@, c),
        decreases chars@.len() - from,
    {
        let n: usize = chars.len();
        let ghost before = texts(pieces@);
        let ghost rest = s@.skip(from as int);
        match position_from(chars.as_slice(), c, from) {
            Some(i) => {
                let piece = text_of(vstd::slice::slice_subrange(chars.as_slice(), from, i));
                assert(piece@ =~= rest.take(i - from));
                assert(rest.skip(i - from + 1) =~= s@.skip(i + 1));
                pieces.push(piece);
                assert(texts(pieces@) =~= before.push(piece@));
                assert(before + (seq![piece@] + split_all(s@.skip(i + 1), c)) =~= texts(pieces@)
                    + split_all(s@.skip(i + 1), c));
                from = i + 1;
            },
            None => {
                let piece = text_of(
                    vstd::slice::slice_subrange(chars.as_slice(), from, n),
                );
                assert(piece@ =~= rest);
                pieces.push(piece);
                assert(texts(pieces@) =~= before + seq![rest]);
                return pieces;
            },
        }
    }
}

/// The Unicode `White_Space` property.
pub open spec fn is_white_space(c: char) -> bool {
    ||| '\u{9}' <= c <= '\u{d}'
    ||| c == '\u{20}'
    ||| c == '\u{85}'
    ||| c == '\u{a0}'
    ||| c == '\u{1680}'
    ||| '\u{2000}' <= c <= '\u{200a}'
    ||| c == '\u{2028}'
    ||| c == '\u{2029}'
    ||| c == '\u{202f}'
    ||| c == '\u{205f}'
    ||| c == '\u{3000}'
}

/// Whether a character is white space.
pub fn white_space(c: char) -> (yes: bool)
    ensures
        yes == is_white_space(c),
{
    ('\u{9}' <= c && c <= '\u{d}') || c == '\u{20}' || c == '\u{85}' || c == '\u{a0}' || c
        == '\u{1680}' || ('\u{2000}' <= c && c <= '\u{200a}') || c == '\u{2028}' || c == '\u{2029}'
        || c == '\u{202f}' || c == '\u{205f}' || c == '\u{3000}'
}

/// A text without its leading white space.
pub open spec fn trim_start(s: Seq<char>) -> Seq<char>
    decreases s.len(),
{
    if s.len() > 0 && is_white_space(s[0]) {
        trim_start(s.drop_first())
    } else {
        s
    }
}

/// A text without its trailing white space.
pub open spec fn trim_end(s: Seq<char>) -> Seq<char>
    decreases s.len(),
{
    if s.len() > 0 && is_white_space(s.last()) {
        trim_end(s.drop_last())
    } else {
        s
    }
}

/// A text without the white space around it.
pub open spec fn trimmed(s: Seq<char>) -> Seq<char> {
    trim_end(trim_start(s))
}

/// Position at or after `from` where the leading white space ends.
fn skip_white_space(chars: &[char], from: usize) -> (end: usize)
    requires
        from <= chars@.len(),
    ensures
        from <= end <= chars@.len(),
        trim_start(chars@.skip(from as int)) == chars@.skip(end as int),
        end < chars@.len() ==> !is_white_space(chars@[end as int]),
{
    let mut end: usize = from;
    while end < chars.len() && white_space(chars[end])
        invariant
            from <= end <= chars@.len(),
            trim_start(chars@.skip(from as int)) == trim_start(chars@.skip(end as int)),
        decreases chars@.len() - end,
    {
        assert(chars@.skip(end as int).drop_first() =~= chars@.skip(end + 1));
        end = end + 1;
    }
    end
}

/// Removes the white space around a text.
pub fn trim(s: &str) -> (t: String)
    ensures
        t@ == trimmed(s@),
{
    let chars = chars_of(s);
    assert(s@.skip(0) =~= s@);
    let start: usize = skip_white_space(chars.as_slice(), 0);
    let mut end: usize = chars.len();
    let ghost body = s@.skip(start as int);
    assert(chars@.subrange(start as int, end as int) =~= body);
    while end > start && white_space(chars[end - 1])
        invariant
            chars@ == s@,
            start <= end <= chars@.len(),
            trim_end(body) == trim_end(chars@.subrange(start as int, end as int)),
        decreases end,
    {
        assert(chars@.subrange(start as int, end as int).drop_last() =~= chars@.subrange(
            start as int,
            end - 1,
        ));
        end = end - 1;
    }
    text_of(vstd::slice::slice_subrange(chars.as_slice(), start, end))
}

/// Length of the leading run without white space.
pub open spec fn word_len(s: Seq<char>) -> nat
    decreases s.len(),
{
    if s.len() == 0 || is_white_space(s[0]) {
        0
    } else {
        1 + word_len(s.drop_first())
    }
}

proof fn lemma_word_len(s: Seq<char>)
    ensures
        word_len(s) <= s.len(),
        s.len() > 0 && !is_white_space(s[0]) ==> word_len(s) > 0,
    decreases s.len(),
{
    if s.len() > 0 && !is_white_space(s[0]) {
        lemma_word_len(s.drop_first());
    }
}

proof fn lemma_trim_start(s: Seq<char>)
    ensures
        trim_start(s).len() <= s.len(),
        trim_start(s).len() > 0 ==> !is_white_space(trim_start(s)[0]),
    decreases s.len(),
{
    if s.len() > 0 && is_white_space(s[0]) {
        lemma_trim_start(s.drop_first());
    }
}

/// The maximal runs of a text that hold no white space.
pub open spec fn words_of(s: Seq<char>) -> Seq<Seq<char>>
    decreases s.len(),
    via words_of_shrinks
{
    let t = trim_start(s);
    if t.len() == 0 {
        Seq::empty()
    } else {
        seq![t.take(word_len(t) as int)] + words_of(t.skip(word_len(t) as int))
    }
}

#[via_fn]
proof fn words_of_shrinks(s: Seq<char>) {
    lemma_trim_start(s);
    lemma_word_len(trim_start(s));
}

/// Splits a text at its white space.
pub fn words(s: &str) -> (found: Vec<String>)
    ensures
        texts(found@) == words_of(s@),
{
    let chars = chars_of(s);
    let n: usize = chars.len();
    let mut found: Vec<String> = Vec::new();
    let mut from: usize = 0;
    assert(s@.skip(0) =~= s@);
    assert(texts(found@) + words_of(s@) =~= words_of(s@));
    loop
        invariant
            chars@ == s@,
            n == chars@.len(),
            from <= n,
            texts(found@) + words_of(s@.skip(from as int)) == words_of(s@),
        decreases n - from,
    {
        let ghost before = texts(found@);
        let start: usize = skip_white_space(chars.as_slice(), from);
        let ghost t = s@.skip(start as int);
        if start == n {
            assert(texts(found@) + Seq::<Seq<char>>::empty() =~= texts(found@));
            return found;
        }
        proof {
            lemma_word_len(t);
        }
        let mut end: usize = start;
        while end < n && !white_space(chars[end])
            invariant
                chars@ == s@,
                n == chars@.len(),
                start <= end <= n,
                t == s@.skip(start as int),
                word_len(t) == (end - start) + word_len(s@.skip(end as int)),
            decreases n - end,
        {
            assert(s@.skip(end as int).drop_first() =~= s@.skip(end + 1));
            end = end + 1;
        }
        let word = text_of(vstd::slice::slice_subrange(chars.as_slice(), start, end));
        assert(word@ =~= t.take(word_len(t) as int));
        assert(t.skip(word_len(t) as int) =~= s@.skip(end as int));
        found.push(word);
        assert(texts(found@) =~= before.push(word@));
        assert(before + (seq![word@] + words_of(s@.skip(end as int))) =~= texts(found@) + words_of(
            s@.skip(end as int),
        ));
        from = end;
    }
}

/// A line without the carriage return that stood before its line feed.
pub open spec fn without_cr(line: Seq<char>) -> Seq<char> {
    if line.len() > 0 && line.last() == '\r' {
        line.drop_last()
    } else {
        line
    }
}

/// The lines of a text: each ends with a line feed, or with a carriage return
/// and a line feed; the last one may end with the text.
pub open spec fn lines_of(s: Seq<char>) -> Seq<Seq<char>>
    decreases s.len(),
    via lines_of_shrinks
{
    match split_first(s, '\n') {
        Some((line, rest)) => seq![without_cr(line)] + lines_of(rest),
        None => if s.len() == 0 {
            Seq::empty()
        } else {
            seq![s]
        },
    }
}

#[via_fn]
proof fn lines_of_shrinks(s: Seq<char>) {
    s.index_of_first_ensures('\n');
}

/// Splits a text into its lines.
pub fn lines(s: &str) -> (found: Vec<String>)
    ensures
        texts(found@) == lines_of(s@),
{
    let chars = chars_of(s);
    let n: usize = chars.len();
    let mut found: Vec<String> = Vec::new();
    let mut from: usize = 0;
    assert(s@.skip(0) =~= s@);
    assert(texts(found@) + lines_of(s@) =~= lines_of(s@));
    loop
        invariant
            chars@ == s@,
            n == chars@.len(),
            from <= n,
            texts(found@) + lines_of(s@.skip(from as int)) == lines_of(s@),
        decreases n - from,
    {
        let ghost before = texts(found@);
        let ghost rest = s@.skip(from as int);
        match position_from(chars.as_slice(), '\n', from) {
            Some(i) => {
                let end: usize = if i > from && chars[i - 1] == '\r' {
                    i - 1
                } else {
                    i
                };
                let line = text_of(vstd::slice::slice_subrange(chars.as_slice(), from, end));
                assert(line@ =~= without_cr(rest.take(i - from)));
                assert(rest.skip(i - from + 1) =~= s@.skip(i + 1));
                found.push(line);
                assert(texts(found@) =~= before.push(line@));
                assert(before + (seq![line@] + lines_of(s@.skip(i + 1))) =~= texts(found@)
                    + lines_of(s@.skip(i + 1)));
                from = i + 1;
            },
            None => {
                if from < n {
                    let line = text_of(vstd::slice::slice_subrange(chars.as_slice(), from, n));
                    assert(line@ =~= rest);
                    found.push(line);
                    assert(texts(found@) =~= before + seq![rest]);
                } else {
                    assert(before + Seq::<Seq<char>>::empty() =~= before);
                }
                return found;
            },
        }
    }
}

/// What follows a prefix, if the text starts with it.
pub open spec fn after_prefix(s: Seq<char>, prefix: Seq<char>) -> Option<Seq<char>> {
    if prefix.is_prefix_of(s) {
        Some(s.skip(prefix.len() as int))
    } else {
        None
    }
}

/// Removes a prefix.
pub fn strip_prefix(s: &str, prefix: &str) -> (rest: Option<String>)
    ensures
        match rest {
            Some(r) => after_prefix(s@, prefix@) == Some(r@),
            None => after_prefix(s@, prefix@) is None,
        },
{
    let a = chars_of(s);
    let b = chars_of(prefix);
    if a.len() < b.len() {
        return None;
    }
    let mut i: usize = 0;
    while i < b.len()
        invariant
            a@ == s@,
            b@ == prefix@,
            i <= b@.len() <= a@.len(),
            forall|j: int| 0 <= j < i ==> a@[j] == b@[j],
        decreases b@.len() - i,
    {
        if a[i] != b[i] {
            assert(s@.subrange(0, prefix@.len() as int)[i as int] == s@[i as int]);
            return None;
        }
        i = i + 1;
    }
    assert(prefix@ =~= s@.subrange(0, prefix@.len() as int));
    let rest = text_of(vstd::slice::slice_subrange(a.as_slice(), i, a.len()));
    assert(rest@ =~= s@.skip(prefix@.len() as int));
    Some(rest)
}

/// Whether a text starts with a prefix.
pub fn starts_with(s: &str, prefix: &str) -> (yes: bool)
    ensures
        yes == prefix@.is_prefix_of(s@),
{
    strip_prefix(s, prefix).is_some()
}

/// An ASCII capital becomes the small letter; every other character stays.
pub open spec fn lower_char(c: char) -> char {
    if 'A' <= c <= 'Z' {
        (c as u32 + 32) as char
    } else {
        c
    }
}

/// A text with its ASCII capitals made small.
pub open spec fn lowered(s: Seq<char>) -> Seq<char> {
    s.map_values(|c: char| lower_char(c))
}

/// Makes ASCII capitals small.
pub fn to_lower(s: &str) -> (t: String)
    ensures
        t@ == lowered(s@),
{
    let chars = chars_of(s);
    let mut t = String::new();
    let mut i: usize = 0;
    while i < chars.len()
        invariant
            chars@ == s@,
            i <= chars@.len(),
            t@ == lowered(s@.take(i as int)),
        decreases chars@.len() - i,
    {
        let c = chars[i];
        let d: char = if 'A' <= c && c <= 'Z' {
            ((c as u8) + 32) as char
        } else {
            c
        };
        assert(d == lower_char(c));
        t.push(d);
        assert(lowered(s@.take(i + 1)) =~= lowered(s@.take(i as int)).push(d));
        i = i + 1;
    }
    assert(s@.take(i as int) =~= s@);
    t
}

/// The texts put together with a separator between them.
pub open spec fn joined(parts: Seq<Seq<char>>, sep: Seq<char>) -> Seq<char>
    decreases parts.len(),
{
    if parts.len() == 0 {
        Seq::empty()
    } else if parts.len() == 1 {
        parts[0]
    } else {
        joined(parts.drop_last(), sep) + sep + parts.last()
    }
}

/// Puts texts together with a separator between them.
pub fn join(parts: &[String], sep: &str) -> (s: String)
    ensures
        s@ == joined(texts(parts@), sep@),
{
    let mut s = String::new();
    let mut i: usize = 0;
    while i < parts.len()
        invariant
            i <= parts@.len(),
            s@ == joined(texts(parts@.take(i as int)), sep@),
        decreases parts@.len() - i,
    {
        let ghost next = texts(parts@.take(i + 1));
        assert(next.drop_last() =~= texts(parts@.take(i as int)));
        assert(next.last() == parts@[i as int]@);
        if i > 0 {
            s.append(sep);
        }
        s.append(parts[i].as_str());
        if i == 0 {
            assert(s@ =~= next[0]);
        }
        i = i + 1;
    }
    assert(parts@.take(i as int) =~= parts@);
    s
}

/// A copy of a list of texts.
pub fn copy_texts(list: &Vec<String>) -> (copy: Vec<String>)
    ensures
        texts(copy@) == texts(list@),
{
    let mut copy: Vec<String> = Vec::new();
    let mut i: usize = 0;
    while i < list.len()
        invariant
            i <= list@.len(),
            copy@ == list@.take(i as int),
        decreases list@.len() - i,
    {
        copy.push(list[i].clone());
        assert(list@.take(i + 1) =~= list@.take(i as int).push(list@[i as int]));
        i = i + 1;
    }
    assert(list@.take(i as int) =~= list@);
    copy
}

} // verus!
