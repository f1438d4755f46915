//! Reading a text as a list of masses: whitespace-separated tokens, each a
//! decimal `i32` with an optional sign.

use vstd::prelude::*;

verus! {

broadcast use vstd::string::group_string_axioms;

/// The characters that `char::is_whitespace` accepts: Unicode `White_Space`.
pub open spec fn is_space(c: char) -> bool {
    let u = c as u32;
    (9 <= u <= 13) || u == 32 || u == 0x85 || u == 0xa0 || u == 0x1680 || (0x2000 <= u
        <= 0x200a) || u == 0x2028 || u == 0x2029 || u == 0x202f || u == 0x205f || u == 0x3000
}

/// The token list of a finished word: nothing for an empty word.
pub open spec fn finish(word: Seq<char>) -> Seq<Seq<char>> {
    if word.len() == 0 {
        seq![]
    } else {
        seq![word]
    }
}

/// The tokens of `rest`, when the word `word` has already begun just before it.
pub open spec fn split_from(word: Seq<char>, rest: Seq<char>) -> Seq<Seq<char>>
    decreases rest.len(),
{
    if rest.len() == 0 {
        finish(word)
    } else if is_space(rest[0]) {
        finish(word) + split_from(seq![], rest.drop_first())
    } else {
        split_from(word.push(rest[0]), rest.drop_first())
    }
}

/// The maximal runs of non-whitespace characters of a text, in order.
pub open spec fn tokens(text: Seq<char>) -> Seq<Seq<char>> {
    split_from(seq![], text)
}

/// A token: one or more characters, none of them whitespace.
pub open spec fn is_word(w: Seq<char>) -> bool {
    w.len() > 0 && forall|i: int| 0 <= i < w.len() ==> !is_space(#[trigger] w[i])
}

/// A word begun without whitespace ends up as tokens that are all words.
proof fn lemma_split_from_words(word: Seq<char>, rest: Seq<char>)
    requires
        forall|i: int| 0 <= i < word.len() ==> !is_space(#[trigger] word[i]),
    ensures
        forall|k: int|
            0 <= k < split_from(word, rest).len() ==> is_word(#[trigger] split_from(word, rest)[k]),
    decreases rest.len(),
{
    if rest.len() > 0 {
        if is_space(rest[0]) {
            let empty: Seq<char> = seq![];
            lemma_split_from_words(empty, rest.drop_first());
            let head = finish(word);
            let tail = split_from(empty, rest.drop_first());
            assert(split_from(word, rest) == head + tail);
            assert forall|k: int| 0 <= k < (head + tail).len() implies is_word(
                #[trigger] (head + tail)[k],
            ) by {
                if k >= head.len() {
                    assert((head + tail)[k] == tail[k - head.len()]);
                }
            }
        } else {
            let longer = word.push(rest[0]);
            assert forall|i: int| 0 <= i < longer.len() implies !is_space(#[trigger] longer[i]) by {
                if i < word.len() {
                    assert(longer[i] == word[i]);
                }
            }
            lemma_split_from_words(longer, rest.drop_first());
            assert(split_from(word, rest) == split_from(longer, rest.drop_first()));
        }
    } else {
        assert(split_from(word, rest) == finish(word));
    }
}

/// Every token of a text is a non-empty run of non-whitespace characters.
pub proof fn lemma_tokens_are_words(text: Seq<char>)
    ensures
        forall|k: int| 0 <= k < tokens(text).len() ==> is_word(#[trigger] tokens(text)[k]),
{
    lemma_split_from_words(seq![], text);
}

/// Whitespace at the very end only finishes the word in progress.
proof fn lemma_split_from_trailing_space(word: Seq<char>, rest: Seq<char>, c: char)
    requires
        is_space(c),
    ensures
        split_from(word, rest.push(c)) == split_from(word, rest),
    decreases rest.len(),
{
    let longer = rest.push(c);
    if rest.len() == 0 {
        let empty: Seq<char> = seq![];
        assert(longer.drop_first() =~= empty);
        assert(split_from(empty, empty) == finish(empty));
        assert(finish(word) + finish(empty) =~= finish(word));
    } else {
        assert(longer.drop_first() =~= rest.drop_first().push(c));
        if is_space(rest[0]) {
            lemma_split_from_trailing_space(seq![], rest.drop_first(), c);
        } else {
            lemma_split_from_trailing_space(word.push(rest[0]), rest.drop_first(), c);
        }
    }
}

/// A whitespace character added at the end of a text changes none of its
/// tokens.
pub proof fn lemma_trailing_space(text: Seq<char>, c: char)
    requires
        is_space(c),
    ensures
        tokens(text.push(c)) == tokens(text),
{
    lemma_split_from_trailing_space(seq![], text, c);
}

fn is_space_char(c: char) -> (r: bool)
    ensures
        r == is_space(c),
{
    let u = c as u32;
    (9 <= u && u <= 13) || u == 32 || u == 0x85 || u == 0xa0 || u == 0x1680 || (0x2000 <= u && u
        <= 0x200a) || u == 0x2028 || u == 0x2029 || u == 0x202f || u == 0x205f || u == 0x3000
}

/// Splits a text into its whitespace-separated tokens.
pub fn parse_split(input: &str) -> (r: Vec<String>)
    ensures
        r.deep_view() == tokens(input@),
        forall|k: int| 0 <= k < r.len() ==> is_word(#[trigger] r@[k]@),
{
    let ghost text = input@;
    proof {
        lemma_tokens_are_words(text);
    }
    let len = input.unicode_len();
    let mut out: Vec<String> = Vec::new();
    let mut start: usize = 0;
    let mut pos: usize = 0;
    assert(text.subrange(0, 0) =~= seq![]);
    assert(text.skip(0) =~= text);
    assert(out.deep_view() + tokens(text) =~= tokens(text));
    for c in it: input.chars()
        invariant
            text == input@,
            len == text.len(),
            it.seq() == text,
            pos == it.index(),
            start <= pos <= len,
            out.deep_view() + split_from(text.subrange(start as int, pos as int), text.skip(
                pos as int,
            )) == tokens(text),
    {
        assert(text.skip(pos as int).drop_first() =~= text.skip(pos + 1));
        assert(text.skip(pos as int)[0] == c);
        if is_space_char(c) {
            if start < pos {
                let word = input.substring_char(start, pos).to_owned();
                let ghost before = out.deep_view();
                out.push(word);
                assert(out.deep_view() =~= before + seq![word@]);
            }
            assert(text.subrange(pos + 1, pos + 1) =~= seq![]);
            start = pos + 1;
        } else {
            assert(text.subrange(start as int, pos as int).push(c) =~= text.subrange(
                start as int,
                pos + 1,
            ));
        }
        pos = pos + 1;
    }
    assert(text.skip(pos as int) =~= seq![]);
    if start < pos {
        let word = input.substring_char(start, pos).to_owned();
        let ghost before = out.deep_view();
        out.push(word);
        assert(out.deep_view() =~= before + seq![word@]);
    }
    assert(out.deep_view() + seq![] =~= out.deep_view());
    assert forall|k: int| 0 <= k < out.len() implies is_word(#[trigger] out@[k]@) by {
        assert(out.deep_view()[k] == out@[k]@);
    }
    out
}

pub open spec fn is_digit(c: char) -> bool {
    '0' <= c <= '9'
}

/// The value of a run of decimal digits, most significant first.
pub open spec fn digits_value(ds: Seq<char>) -> int
    decreases ds.len(),
{
    if ds.len() == 0 {
        0
    } else {
        10 * digits_value(ds.drop_last()) + (ds.last() as int - '0' as int)
    }
}

/// One or more decimal digits.
pub open spec fn all_digits(ds: Seq<char>) -> bool {
    ds.len() > 0 && forall|i: int| 0 <= i < ds.len() ==> is_digit(#[trigger] ds[i])
}

pub open spec fn has_sign(t: Seq<char>) -> bool {
    t.len() > 0 && (t[0] == '-' || t[0] == '+')
}

/// The integer that a token writes, if it writes one: an optional `-` or
/// `+` followed by one or more decimal digits.
pub open spec fn token_int(t: Seq<char>) -> Option<int> {
    let ds = if has_sign(t) {
        t.skip(1)
    } else {
        t
    };
    if !all_digits(ds) {
        None
    } else if t[0] == '-' {
        Some(-digits_value(ds))
    } else {
        Some(digits_value(ds))
    }
}

/// The mass that a token writes: its integer, where that fits in an `i32`.
pub open spec fn token_mass(t: Seq<char>) -> Option<i32> {
    match token_int(t) {
        Some(v) => if i32::MIN <= v <= i32::MAX {
            Some(v as i32)
        } else {
            None
        },
        None => None,
    }
}

/// Every token writes a mass.
pub open spec fn all_masses(toks: Seq<Seq<char>>) -> bool {
    forall|i: int| 0 <= i < toks.len() ==> (#[trigger] token_mass(toks[i])) is Some
}

/// The masses that the tokens write, in order.
pub open spec fn masses_of(toks: Seq<Seq<char>>) -> Seq<i32> {
    toks.map_values(|t: Seq<char>| token_mass(t)->Some_0)
}

/// A magnitude above every `i32`; larger values are held at it.
const CAP: u64 = 0x1_0000_0000;

/// Reads one token as a mass.
pub fn parse_mass(token: &str) -> (r: Option<i32>)
    ensures
        r == token_mass(token@),
{
    let ghost t = token@;
    let len = token.unicode_len();
    if len == 0 {
        return None;
    }
    let first = token.get_char(0);
    let negative = first == '-';
    let start: usize = if first == '-' || first == '+' {
        1
    } else {
        0
    };
    let ghost ds = if has_sign(t) {
        t.skip(1)
    } else {
        t
    };
    assert(has_sign(t) <==> start == 1);
    assert(ds =~= t.subrange(start as int, len as int));
    let mut value: u64 = 0;
    let mut pos: usize = 0;
    for c in it: token.chars()
        invariant
            t == token@,
            len == t.len(),
            it.seq() == t,
            pos == it.index(),
            pos <= len,
            0 < len,
            start <= 1,
            has_sign(t) <==> start == 1,
            negative <==> t[0] == '-',
            ds == t.subrange(start as int, len as int),
            forall|j: int| start <= j < pos ==> is_digit(#[trigger] t[j]),
            pos >= start ==> value == if digits_value(t.subrange(start as int, pos as int))
                < CAP {
                digits_value(t.subrange(start as int, pos as int))
            } else {
                CAP as int
            },
            pos < start ==> value == 0,
    {
        if pos >= start {
            if !('0' <= c && c <= '9') {
                assert(!is_digit(ds[pos - start]));
                return None;
            }
            let d = (c as u32 - '0' as u32) as u64;
            assert(t.subrange(start as int, pos + 1).drop_last() =~= t.subrange(
                start as int,
                pos as int,
            ));
            let next = value * 10 + d;
            value = if next < CAP {
                next
            } else {
                CAP
            };
        } else {
            assert(t.subrange(start as int, start as int) =~= seq![]);
        }
        pos = pos + 1;
    }
    if len == start {
        return None;
    }
    assert(all_digits(ds));
    if negative {
        if value <= 0x8000_0000 {
            Some((0 - (value as i64)) as i32)
        } else {
            None
        }
    } else if value <= 0x7fff_ffff {
        Some(value as i32)
    } else {
        None
    }
}

/// A token that writes no `i32`: its place among the tokens, and its text.
#[derive(Debug)]
pub struct ParseError {
    pub index: usize,
    pub token: String,
}

/// `e` names the first token of `toks` that writes no mass.
pub open spec fn is_first_bad(toks: Seq<Seq<char>>, e: ParseError) -> bool {
    &&& e.index < toks.len()
    &&& e.token@ == toks[e.index as int]
    &&& token_mass(toks[e.index as int]) is None
    &&& forall|j: int| 0 <= j < e.index ==> (#[trigger] token_mass(toks[j])) is Some
}

/// Reads each token as a mass; fails at the first token that writes none.
pub fn parse_into_ints(strings: &Vec<String>) -> (r: Result<Vec<i32>, ParseError>)
    ensures
        r is Ok <==> all_masses(strings.deep_view()),
        r matches Ok(ms) ==> ms@ == masses_of(strings.deep_view()),
        r matches Err(e) ==> is_first_bad(strings.deep_view(), e),
{
    let ghost toks = strings.deep_view();
    let mut out: Vec<i32> = Vec::new();
    for i in 0..strings.len()
        invariant
            toks == strings.deep_view(),
            out@.len() == i,
            forall|j: int| 0 <= j < i ==> (#[trigger] token_mass(toks[j])) is Some,
            forall|j: int| 0 <= j < i ==> Some(#[trigger] out@[j]) == token_mass(toks[j]),
    {
        assert(toks[i as int] == strings@[i as int]@);
        match parse_mass(strings[i].as_str()) {
            Some(m) => out.push(m),
            None => {
                return Err(ParseError { index: i, token: strings[i].clone() });
            },
        }
    }
    assert(out@ =~= masses_of(toks));
    Ok(out)
}

/// Reads a text as the list of masses that its tokens write.
pub fn parse(input: String) -> (r: Result<Vec<i32>, ParseError>)
    ensures
        r is Ok <==> all_masses(tokens(input@)),
        r matches Ok(ms) ==> ms@ == masses_of(tokens(input@)),
        r matches Err(e) ==> is_first_bad(tokens(input@), e),
{
    let string_split = parse_split(input.as_str());
    parse_into_ints(&string_split)
}

} // verus!
