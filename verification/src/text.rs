//! Text as sequences of characters: searching, splitting, trimming and numbers.
use vstd::prelude::*;
use vstd::slice::slice_subrange;
use vstd::utf8::*;

verus! {

/// `String::push` appends one character.
pub assume_specification[ String::push ](text: &mut String, c: char)
    ensures
        final(text)@ == old(text)@.push(c),
;

/// What `std::str::Utf8Error` writes about bytes that are no UTF-8.
pub uninterp spec fn utf8_error(bytes: Seq<u8>) -> Seq<char>;

/// `std::str::from_utf8` accepts exactly the valid UTF-8 encodings and gives
/// the text whose encoding the bytes are; of other bytes the text of its error
/// is a function of the bytes.
#[verifier::external_body]
fn std_from_utf8(bytes: &[u8]) -> (text: Result<&str, String>)
    ensures
        text is Ok <==> valid_utf8(bytes@),
        text matches Ok(text) ==> text@ == decode_utf8(bytes@),
        text matches Err(error) ==> error@ == utf8_error(bytes@),
{
    std::str::from_utf8(bytes).map_err(|error| error.to_string())
}

/// The UTF-8 encoding of a text.
pub open spec fn utf8(text: Seq<char>) -> Seq<u8> {
    encode_utf8(text)
}

/// The text whose UTF-8 encoding is `bytes`, where there is one.
pub open spec fn from_utf8(bytes: Seq<u8>) -> Option<Seq<char>> {
    if valid_utf8(bytes) {
        Some(decode_utf8(bytes))
    } else {
        None
    }
}

/// Decoding the encoding of a text gives the text.
pub broadcast proof fn lemma_utf8_round_trip(text: Seq<char>)
    ensures
        #[trigger] from_utf8(utf8(text)) == Some(text),
{
    broadcast use encode_utf8_valid_utf8, encode_utf8_decode_utf8;

}

/// Only the encoding of a text decodes to it.
pub broadcast proof fn lemma_from_utf8_inverse(bytes: Seq<u8>)
    ensures
        #[trigger] from_utf8(bytes) is Some ==> utf8(from_utf8(bytes)->0) == bytes,
{
    broadcast use decode_utf8_encode_utf8;

}

/// Decodes UTF-8, or says why it cannot.
pub fn text_from_utf8(bytes: &[u8]) -> (text: Result<String, String>)
    ensures
        text is Ok <==> from_utf8(bytes@) is Some,
        text matches Ok(text) ==> Some(text@) == from_utf8(bytes@),
        text matches Err(error) ==> error@ == utf8_error(bytes@),
{
    match std_from_utf8(bytes) {
        Ok(text) => Ok(text.to_owned()),
        Err(error) => Err(error),
    }
}

/// The characters of a string.
pub fn chars_of(text: &str) -> (chars: Vec<char>)
    ensures
        chars@ == text@,
{
    let mut chars: Vec<char> = Vec::new();
    for c in iter: text.chars()
        invariant
            iter.seq() == text@,
            chars@ == text@.take(iter.index()),
    {
        chars.push(c);
        assert(chars@ =~= text@.take(iter.index() + 1));
    }
    assert(text@.take(text@.len() as int) =~= text@);
    chars
}

/// The string made of some characters.
pub fn string_of(chars: &[char]) -> (text: String)
    ensures
        text@ == chars@,
{
    let mut text = String::new();
    for i in 0..chars.len()
        invariant
            text@ == chars@.take(i as int),
    {
        text.push(chars[i]);
        assert(text@ =~= chars@.take(i + 1));
    }
    assert(chars@.take(chars@.len() as int) =~= chars@);
    text
}

/// Whether two strings are equal.
pub fn same_text(left: &str, right: &str) -> (same: bool)
    ensures
        same == (left@ == right@),
{
    let a = chars_of(left);
    let b = chars_of(right);
    same_chars(a.as_slice(), b.as_slice())
}

/// Whether two slices hold the same characters.
pub fn same_chars(left: &[char], right: &[char]) -> (same: bool)
    ensures
        same == (left@ == right@),
{
    if left.len() != right.len() {
        return false;
    }
    for i in 0..left.len()
        invariant
            left@.len() == right@.len(),
            forall|j: int| 0 <= j < i ==> left@[j] == right@[j],
    {
        if left[i] != right[i] {
            return false;
        }
    }
    assert(left@ =~= right@);
    true
}

/// Two strings, one after the other.
pub fn join(left: &str, right: &str) -> (text: String)
    ensures
        text@ == left@ + right@,
{
    let mut text = left.to_owned();
    text.append(right);
    text
}

/// Whether `pattern` stands in `text` at `at`.
pub open spec fn occurs_at<T>(text: Seq<T>, pattern: Seq<T>, at: int) -> bool {
    &&& 0 <= at
    &&& at + pattern.len() <= text.len()
    &&& text.subrange(at, at + pattern.len()) == pattern
}

/// Whether `at` is the first place where `pattern` stands in `text`.
pub open spec fn first_at<T>(text: Seq<T>, pattern: Seq<T>, at: int) -> bool {
    &&& occurs_at(text, pattern, at)
    &&& forall|before: int| 0 <= before < at ==> !occurs_at(text, pattern, before)
}

/// The first place where `pattern` stands in `text`.
pub open spec fn find<T>(text: Seq<T>, pattern: Seq<T>) -> Option<int> {
    if exists|at: int| first_at(text, pattern, at) {
        Some(choose|at: int| first_at(text, pattern, at))
    } else {
        None
    }
}

/// A place that is first is the one that [`find`] gives.
pub proof fn lemma_find_first<T>(text: Seq<T>, pattern: Seq<T>, at: int)
    requires
        first_at(text, pattern, at),
    ensures
        find(text, pattern) == Some(at),
{
    let found = choose|other: int| first_at(text, pattern, other);
    if found < at {
        assert(!occurs_at(text, pattern, found));
    }
    if at < found {
        assert(!occurs_at(text, pattern, at));
    }
}

/// What [`find`] gives is first.
pub proof fn lemma_find_is_first<T>(text: Seq<T>, pattern: Seq<T>)
    ensures
        find(text, pattern) matches Some(at) ==> first_at(text, pattern, at),
        find(text, pattern) is None ==> forall|at: int| !occurs_at(text, pattern, at),
    decreases text.len(),
{
    if find(text, pattern) is None {
        assert forall|at: int| !occurs_at(text, pattern, at) by {
            if occurs_at(text, pattern, at) {
                lemma_least(text, pattern, at);
            }
        }
    }
}

proof fn lemma_least<T>(text: Seq<T>, pattern: Seq<T>, at: int)
    requires
        occurs_at(text, pattern, at),
    ensures
        exists|least: int| first_at(text, pattern, least),
    decreases at,
{
    if exists|before: int| 0 <= before < at && occurs_at(text, pattern, before) {
        let before = choose|before: int| 0 <= before < at && occurs_at(text, pattern, before);
        lemma_least(text, pattern, before);
    } else {
        assert(first_at(text, pattern, at));
    }
}

/// Finds the first place of `pattern` in `text`.
pub fn find_chars(text: &[char], pattern: &[char]) -> (place: Option<usize>)
    ensures
        place is Some <==> find(text@, pattern@) is Some,
        place matches Some(at) ==> find(text@, pattern@) == Some(at as int) && at + pattern@.len()
            <= text.len() && first_at(text@, pattern@, at as int),
{
    let mut at: usize = 0;
    while at <= text.len() && pattern.len() <= text.len() - at
        invariant
            at <= text.len() + 1,
            at <= usize::MAX,
            forall|before: int| 0 <= before < at ==> !occurs_at(text@, pattern@, before),
        decreases text.len() + 1 - at,
    {
        if same_chars(slice_subrange(text, at, at + pattern.len()), pattern) {
            proof {
                lemma_find_first(text@, pattern@, at as int);
            }
            return Some(at);
        }
        if at == text.len() {
            proof {
                lemma_find_is_first(text@, pattern@);
            }
            return None;
        }
        at += 1;
    }
    proof {
        lemma_find_is_first(text@, pattern@);
    }
    None
}

/// Finds the first place of `pattern` in `bytes`.
pub fn find_bytes(bytes: &[u8], pattern: &[u8]) -> (place: Option<usize>)
    ensures
        place is Some <==> find(bytes@, pattern@) is Some,
        place matches Some(at) ==> find(bytes@, pattern@) == Some(at as int) && at + pattern@.len()
            <= bytes.len() && first_at(bytes@, pattern@, at as int),
{
    let mut at: usize = 0;
    while at <= bytes.len() && pattern.len() <= bytes.len() - at
        invariant
            at <= bytes.len() + 1,
            at <= usize::MAX,
            forall|before: int| 0 <= before < at ==> !occurs_at(bytes@, pattern@, before),
        decreases bytes.len() + 1 - at,
    {
        if crate::octets::same_bytes(slice_subrange(bytes, at, at + pattern.len()), pattern) {
            proof {
                lemma_find_first(bytes@, pattern@, at as int);
            }
            return Some(at);
        }
        if at == bytes.len() {
            proof {
                lemma_find_is_first(bytes@, pattern@);
            }
            return None;
        }
        at += 1;
    }
    proof {
        lemma_find_is_first(bytes@, pattern@);
    }
    None
}

/// What stands before and after the first `pattern`.
pub open spec fn split_once(text: Seq<char>, pattern: Seq<char>) -> Option<(Seq<char>, Seq<char>)> {
    match find(text, pattern) {
        Some(at) => Some((text.take(at), text.skip(at + pattern.len()))),
        None => None,
    }
}

/// Splits at the first `pattern`.
pub fn split_once_chars(text: &[char], pattern: &[char]) -> (parts: Option<(Vec<char>, Vec<char>)>)
    ensures
        parts is Some <==> split_once(text@, pattern@) is Some,
        parts matches Some((head, tail)) ==> split_once(text@, pattern@) == Some((head@, tail@)),
{
    match find_chars(text, pattern) {
        Some(at) => {
            let head = sub_chars(text, 0, at);
            let tail = sub_chars(text, at + pattern.len(), text.len());
            assert(head@ =~= text@.take(at as int));
            assert(tail@ =~= text@.skip(at + pattern@.len()));
            Some((head, tail))
        },
        None => None,
    }
}

/// What stands before and after the last `mark`.
pub open spec fn rsplit_once(text: Seq<char>, mark: char) -> Option<(Seq<char>, Seq<char>)>
    decreases text.len(),
{
    if text.len() == 0 {
        None
    } else if text.last() == mark {
        Some((text.drop_last(), Seq::empty()))
    } else {
        match rsplit_once(text.drop_last(), mark) {
            Some((head, tail)) => Some((head, tail.push(text.last()))),
            None => None,
        }
    }
}

/// Splits at the last `mark`.
pub fn rsplit_once_chars(text: &[char], mark: char) -> (parts: Option<(Vec<char>, Vec<char>)>)
    ensures
        parts is Some <==> rsplit_once(text@, mark) is Some,
        parts matches Some((head, tail)) ==> rsplit_once(text@, mark) == Some((head@, tail@)),
{
    let mut at: usize = text.len();
    assert(text@.take(at as int) =~= text@);
    assert(text@.skip(at as int) =~= Seq::<char>::empty());
    while at > 0
        invariant
            at <= text@.len(),
            rsplit_once(text@, mark) == (match rsplit_once(text@.take(at as int), mark) {
                Some((head, tail)) => Some((head, tail + text@.skip(at as int))),
                None => None::<(Seq<char>, Seq<char>)>,
            }),
        decreases at,
    {
        let ghost upto = text@.take(at as int);
        assert(upto.drop_last() =~= text@.take(at - 1));
        assert(upto.last() == text@[at - 1]);
        if text[at - 1] == mark {
            let head = sub_chars(text, 0, at - 1);
            let tail = sub_chars(text, at, text.len());
            assert(head@ =~= upto.drop_last());
            assert(Seq::<char>::empty() + text@.skip(at as int) =~= tail@);
            return Some((head, tail));
        }
        proof {
            match rsplit_once(text@.take(at - 1), mark) {
                Some((head, tail)) => {
                    assert(tail.push(text@[at - 1]) + text@.skip(at as int) =~= tail + text@.skip(
                        at - 1,
                    ));
                },
                None => {},
            }
        }
        at -= 1;
    }
    None
}

/// The pieces of `text` between the places of `pattern`.
pub open spec fn split(text: Seq<char>, pattern: Seq<char>) -> Seq<Seq<char>>
    decreases text.len(),
{
    match find(text, pattern) {
        Some(at) => if pattern.len() > 0 && 0 <= at && at + pattern.len() <= text.len() {
            seq![text.take(at)] + split(text.skip(at + pattern.len()), pattern)
        } else {
            seq![text]
        },
        None => seq![text],
    }
}

/// The texts that some vectors hold.
pub open spec fn views(parts: Seq<Vec<char>>) -> Seq<Seq<char>> {
    parts.map_values(|part: Vec<char>| part@)
}

/// Splits at every `pattern`.
pub fn split_chars(text: &[char], pattern: &[char]) -> (parts: Vec<Vec<char>>)
    requires
        pattern@.len() > 0,
    ensures
        views(parts@) == split(text@, pattern@),
        parts@.len() > 0,
{
    let mut parts: Vec<Vec<char>> = Vec::new();
    let mut rest: Vec<char> = sub_chars(text, 0, text.len());
    assert(rest@ =~= text@);
    assert(views(parts@) + split(rest@, pattern@) =~= split(text@, pattern@));
    loop
        invariant
            pattern@.len() > 0,
            views(parts@) + split(rest@, pattern@) == split(text@, pattern@),
        decreases rest@.len(),
    {
        match find_chars(rest.as_slice(), pattern) {
            Some(at) => {
                let piece = sub_chars(rest.as_slice(), 0, at);
                let tail = sub_chars(rest.as_slice(), at + pattern.len(), rest.len());
                assert(piece@ =~= rest@.take(at as int));
                assert(tail@ =~= rest@.skip(at + pattern@.len()));
                let ghost before = parts@;
                parts.push(piece);
                assert(views(parts@) =~= views(before) + seq![rest@.take(at as int)]);
                assert(views(parts@) + split(tail@, pattern@) =~= views(before) + split(
                    rest@,
                    pattern@,
                ));
                rest = tail;
            },
            None => {
                let ghost before = parts@;
                let ghost last = rest@;
                parts.push(rest);
                assert(views(parts@) =~= views(before) + seq![last]);
                return parts;
            },
        }
    }
}

/// `from..to` of some characters.
pub fn sub_chars(text: &[char], from: usize, to: usize) -> (part: Vec<char>)
    requires
        from <= to <= text@.len(),
    ensures
        part@ == text@.subrange(from as int, to as int),
{
    let mut part: Vec<char> = Vec::new();
    for i in from..to
        invariant
            from <= i <= to <= text@.len(),
            part@ == text@.subrange(from as int, i as int),
    {
        part.push(text[i]);
        assert(part@ =~= text@.subrange(from as int, i + 1));
    }
    part
}

/// The lower-case form of an ASCII letter; other characters stay.
pub open spec fn lower_char(c: char) -> char {
    if 'A' <= c && c <= 'Z' {
        ((c as u8) + 32) as u8 as char
    } else {
        c
    }
}

/// A text with its ASCII letters in lower case.
pub open spec fn lower(text: Seq<char>) -> Seq<char> {
    text.map_values(|c: char| lower_char(c))
}

/// Lower-cases the ASCII letters.
pub fn lower_chars(text: &[char]) -> (out: Vec<char>)
    ensures
        out@ == lower(text@),
{
    let mut out: Vec<char> = Vec::new();
    for i in 0..text.len()
        invariant
            out@ == lower(text@.take(i as int)),
    {
        let c = text[i];
        if 'A' <= c && c <= 'Z' {
            out.push(((c as u8) + 32) as char);
        } else {
            out.push(c);
        }
        assert(out@ =~= lower(text@.take(i + 1)));
    }
    assert(text@.take(text@.len() as int) =~= text@);
    out
}

/// Whether two texts differ at most in the case of ASCII letters.
pub fn same_ignoring_case(left: &[char], right: &[char]) -> (same: bool)
    ensures
        same == (lower(left@) == lower(right@)),
{
    let a = lower_chars(left);
    let b = lower_chars(right);
    same_chars(a.as_slice(), b.as_slice())
}

/// Whether a character has the Unicode property White_Space.
pub open spec fn is_white(c: char) -> bool {
    ||| '\u{9}' <= c && c <= '\u{d}'
    ||| c == '\u{20}'
    ||| c == '\u{85}'
    ||| c == '\u{a0}'
    ||| c == '\u{1680}'
    ||| '\u{2000}' <= c && c <= '\u{200a}'
    ||| c == '\u{2028}'
    ||| c == '\u{2029}'
    ||| c == '\u{202f}'
    ||| c == '\u{205f}'
    ||| c == '\u{3000}'
}

/// Tests for white space.
pub fn white(c: char) -> (yes: bool)
    ensures
        yes == is_white(c),
{
    ('\u{9}' <= c && c <= '\u{d}') || c == '\u{20}' || c == '\u{85}' || c == '\u{a0}' || c
        == '\u{1680}' || ('\u{2000}' <= c && c <= '\u{200a}') || c == '\u{2028}' || c == '\u{2029}'
        || c == '\u{202f}' || c == '\u{205f}' || c == '\u{3000}'
}

/// A text without its leading white space.
pub open spec fn trim_start(text: Seq<char>) -> Seq<char>
    decreases text.len(),
{
    if text.len() > 0 && is_white(text[0]) {
        trim_start(text.skip(1))
    } else {
        text
    }
}

/// A text without its trailing white space.
pub open spec fn trim_end(text: Seq<char>) -> Seq<char>
    decreases text.len(),
{
    if text.len() > 0 && is_white(text.last()) {
        trim_end(text.drop_last())
    } else {
        text
    }
}

/// A text without white space at either end.
pub open spec fn trim(text: Seq<char>) -> Seq<char> {
    trim_end(trim_start(text))
}

/// A text without the `mark`s at its end.
pub open spec fn trim_end_of(text: Seq<char>, mark: char) -> Seq<char>
    decreases text.len(),
{
    if text.len() > 0 && text.last() == mark {
        trim_end_of(text.drop_last(), mark)
    } else {
        text
    }
}

/// Removes leading white space.
pub fn trim_start_chars(text: &[char]) -> (out: Vec<char>)
    ensures
        out@ == trim_start(text@),
{
    let mut at: usize = 0;
    assert(text@.skip(0) =~= text@);
    while at < text.len() && white(text[at])
        invariant
            at <= text@.len(),
            trim_start(text@.skip(at as int)) == trim_start(text@),
        decreases text@.len() - at,
    {
        assert(text@.skip(at as int).skip(1) =~= text@.skip(at + 1));
        at += 1;
    }
    let out = sub_chars(text, at, text.len());
    assert(out@ =~= text@.skip(at as int));
    out
}

/// Removes white space at both ends.
pub fn trim_chars(text: &[char]) -> (out: Vec<char>)
    ensures
        out@ == trim(text@),
{
    let head = trim_start_chars(text);
    let mut end: usize = head.len();
    assert(head@.take(end as int) =~= head@);
    while end > 0 && white(head[end - 1])
        invariant
            end <= head@.len(),
            trim_end(head@.take(end as int)) == trim_end(head@),
        decreases end,
    {
        assert(head@.take(end as int).drop_last() =~= head@.take(end - 1));
        end -= 1;
    }
    let out = sub_chars(head.as_slice(), 0, end);
    assert(out@ =~= head@.take(end as int));
    out
}

/// Removes the `mark`s at the end.
pub fn trim_end_of_chars(text: &[char], mark: char) -> (out: Vec<char>)
    ensures
        out@ == trim_end_of(text@, mark),
{
    let mut end: usize = text.len();
    assert(text@.take(end as int) =~= text@);
    while end > 0 && text[end - 1] == mark
        invariant
            end <= text@.len(),
            trim_end_of(text@.take(end as int), mark) == trim_end_of(text@, mark),
        decreases end,
    {
        assert(text@.take(end as int).drop_last() =~= text@.take(end - 1));
        end -= 1;
    }
    let out = sub_chars(text, 0, end);
    assert(out@ =~= text@.take(end as int));
    out
}

/// How many characters stand before the first white space.
pub open spec fn word_len(text: Seq<char>) -> nat
    decreases text.len(),
{
    if text.len() == 0 || is_white(text[0]) {
        0
    } else {
        1 + word_len(text.skip(1))
    }
}

/// The first word and what follows it; the first is empty where there is none.
pub open spec fn next_word(text: Seq<char>) -> (Seq<char>, Seq<char>) {
    let start = trim_start(text);
    (start.take(word_len(start) as int), start.skip(word_len(start) as int))
}

proof fn lemma_word_len(text: Seq<char>)
    ensures
        word_len(text) <= text.len(),
    decreases text.len(),
{
    if text.len() > 0 && !is_white(text[0]) {
        lemma_word_len(text.skip(1));
    }
}

/// Takes the first word off.
pub fn next_word_chars(text: &[char]) -> (parts: (Vec<char>, Vec<char>))
    ensures
        (parts.0@, parts.1@) == next_word(text@),
{
    let start = trim_start_chars(text);
    let mut end: usize = 0;
    assert(start@.skip(0) =~= start@);
    while end < start.len() && !white(start[end])
        invariant
            end <= start@.len(),
            word_len(start@) == end + word_len(start@.skip(end as int)),
        decreases start@.len() - end,
    {
        assert(start@.skip(end as int).skip(1) =~= start@.skip(end + 1));
        end += 1;
    }
    let word = sub_chars(start.as_slice(), 0, end);
    let rest = sub_chars(start.as_slice(), end, start.len());
    assert(word@ =~= start@.take(end as int));
    assert(rest@ =~= start@.skip(end as int));
    (word, rest)
}

/// Whether `text` begins with `head`.
pub open spec fn begins_with(text: Seq<char>, head: Seq<char>) -> bool {
    occurs_at(text, head, 0)
}

/// Whether `text` ends with `tail`.
pub open spec fn finishes_with(text: Seq<char>, tail: Seq<char>) -> bool {
    occurs_at(text, tail, text.len() - tail.len())
}

/// Tests whether `text` begins with `head`.
pub fn begins_with_chars(text: &[char], head: &[char]) -> (yes: bool)
    ensures
        yes == begins_with(text@, head@),
{
    head.len() <= text.len() && same_chars(slice_subrange(text, 0, head.len()), head)
}

/// Tests whether `text` ends with `tail`.
pub fn finishes_with_chars(text: &[char], tail: &[char]) -> (yes: bool)
    ensures
        yes == finishes_with(text@, tail@),
{
    tail.len() <= text.len() && same_chars(
        slice_subrange(text, text.len() - tail.len(), text.len()),
        tail,
    )
}

/// The value of a decimal digit.
pub open spec fn digit_value(c: char) -> int {
    c as int - '0' as int
}

/// Whether a text is made of decimal digits, at least one.
pub open spec fn all_digits(text: Seq<char>) -> bool {
    text.len() > 0 && forall|i: int| 0 <= i < text.len() ==> '0' <= #[trigger] text[i] && text[i]
        <= '9'
}

/// The number that decimal digits write.
pub open spec fn decimal_value(text: Seq<char>) -> nat
    decreases text.len(),
{
    if text.len() == 0 {
        0
    } else {
        (decimal_value(text.drop_last()) * 10 + digit_value(text.last())) as nat
    }
}

/// The number that a text writes in decimal, with an optional leading plus
/// sign, where it is at most `limit`.
pub open spec fn parse_number(text: Seq<char>, limit: nat) -> Option<nat> {
    let digits = if text.len() > 0 && text[0] == '+' {
        text.skip(1)
    } else {
        text
    };
    if all_digits(digits) && decimal_value(digits) <= limit {
        Some(decimal_value(digits))
    } else {
        None
    }
}

proof fn lemma_decimal_monotone(text: Seq<char>, upto: int)
    requires
        all_digits(text),
        0 <= upto <= text.len(),
    ensures
        decimal_value(text.take(upto)) <= decimal_value(text),
    decreases text.len() - upto,
{
    if upto < text.len() {
        lemma_decimal_monotone(text, upto + 1);
        assert(text.take(upto + 1).drop_last() =~= text.take(upto));
    } else {
        assert(text.take(upto) =~= text);
    }
}

/// Reads decimal digits that write at most `limit`.
fn parse_digits(digits: &[char], limit: u64) -> (value: Option<u64>)
    ensures
        value is Some <==> all_digits(digits@) && decimal_value(digits@) <= limit,
        value matches Some(value) ==> value == decimal_value(digits@),
{
    if digits.len() == 0 {
        return None;
    }
    for i in 0..digits.len()
        invariant
            forall|j: int| 0 <= j < i ==> '0' <= #[trigger] digits@[j] && digits@[j] <= '9',
    {
        if !('0' <= digits[i] && digits[i] <= '9') {
            assert(!('0' <= digits@[i as int] && digits@[i as int] <= '9'));
            return None;
        }
    }
    let mut value: u64 = 0;
    for i in 0..digits.len()
        invariant
            all_digits(digits@),
            value == decimal_value(digits@.take(i as int)),
            value <= limit,
    {
        assert(digits@.take(i + 1).drop_last() =~= digits@.take(i as int));
        let digit: u64 = (digits[i] as u64) - ('0' as u64);
        let next: u128 = (value as u128) * 10 + digit as u128;
        if next > limit as u128 {
            proof {
                lemma_decimal_monotone(digits@, i + 1);
            }
            return None;
        }
        value = next as u64;
    }
    assert(digits@.take(digits@.len() as int) =~= digits@);
    Some(value)
}

/// Reads a decimal number of at most `limit`.
pub fn parse_number_chars(text: &[char], limit: u64) -> (value: Option<u64>)
    ensures
        value is Some <==> parse_number(text@, limit as nat) is Some,
        value matches Some(value) ==> parse_number(text@, limit as nat) == Some(value as nat),
{
    if text.len() > 0 && text[0] == '+' {
        assert(text@.subrange(1, text@.len() as int) =~= text@.skip(1));
        parse_digits(slice_subrange(text, 1, text.len()), limit)
    } else {
        parse_digits(text, limit)
    }
}

/// The decimal digits of a number.
pub open spec fn decimal(value: nat) -> Seq<char>
    decreases value,
{
    let digit = ('0' as u8 + value % 10) as u8 as char;
    if value < 10 {
        seq![digit]
    } else {
        decimal(value / 10).push(digit)
    }
}

/// Writes a number in decimal.
pub fn decimal_text(value: u64) -> (text: String)
    ensures
        text@ == decimal(value as nat),
    decreases value,
{
    let digit = (48 + (value % 10) as u8) as char;
    let mut text = if value < 10 {
        String::new()
    } else {
        decimal_text(value / 10)
    };
    text.push(digit);
    assert(value < 10 ==> text@ =~= seq![digit]);
    text
}

/// A hexadecimal digit, in lower case.
pub open spec fn hexadecimal_digit(value: int) -> char {
    if value < 10 {
        ('0' as u8 + value) as u8 as char
    } else {
        ('a' as u8 + value - 10) as u8 as char
    }
}

/// A byte in hexadecimal, without leading zeros.
pub open spec fn hexadecimal(value: u8) -> Seq<char> {
    if value < 16 {
        seq![hexadecimal_digit(value as int)]
    } else {
        seq![hexadecimal_digit((value / 16) as int), hexadecimal_digit((value % 16) as int)]
    }
}

/// Writes a byte in hexadecimal.
pub fn hexadecimal_text(value: u8) -> (text: String)
    ensures
        text@ == hexadecimal(value),
{
    let mut text = String::new();
    let high: u8 = value / 16;
    let low: u8 = value % 16;
    if high > 0 {
        text.push(
            if high < 10 {
                (48 + high) as char
            } else {
                (87 + high) as char
            },
        );
    }
    text.push(
        if low < 10 {
            (48 + low) as char
        } else {
            (87 + low) as char
        },
    );
    assert(text@ =~= hexadecimal(value));
    text
}

proof fn lemma_decimal_digits(value: nat)
    ensures
        all_digits(decimal(value)),
        decimal_value(decimal(value)) == value,
    decreases value,
{
    let digit = ('0' as u8 + value % 10) as u8 as char;
    assert(digit_value(digit) == value % 10);
    if value < 10 {
        assert(seq![digit].drop_last() =~= Seq::<char>::empty());
        assert(decimal_value(Seq::<char>::empty()) == 0);
    } else {
        lemma_decimal_digits(value / 10);
        assert(decimal(value).drop_last() =~= decimal(value / 10));
    }
}

/// Reading the decimal digits of a number gives the number back.
pub proof fn lemma_decimal_round_trip(value: nat, limit: nat)
    requires
        value <= limit,
    ensures
        parse_number(decimal(value), limit) == Some(value),
{
    lemma_decimal_digits(value);
    assert('0' <= decimal(value)[0]);
}

/// What `String::from_utf8_lossy` makes of some bytes.
pub uninterp spec fn utf8_lossy(bytes: Seq<u8>) -> Seq<char>;

/// `String::from_utf8_lossy`: valid UTF-8 gives the text whose encoding it is;
/// what other bytes give is a function of the bytes.
#[verifier::external_body]
pub(crate) fn text_from_utf8_lossy(bytes: &[u8]) -> (text: String)
    ensures
        text@ == utf8_lossy(bytes@),
        valid_utf8(bytes@) ==> text@ == decode_utf8(bytes@),
{
    String::from_utf8_lossy(bytes).into_owned()
}

/// A line without the carriage return at its end.
pub open spec fn without_return(line: Seq<char>) -> Seq<char> {
    if line.len() > 0 && line.last() == '\r' {
        line.drop_last()
    } else {
        line
    }
}

/// The lines of a text. A carriage return before a line feed belongs to the
/// line's end; after the last line feed nothing need follow.
pub open spec fn lines(text: Seq<char>) -> Seq<Seq<char>> {
    let parts = split(text, seq!['\n']);
    let last = parts.len() - 1;
    Seq::new(
        if parts[last].len() == 0 {
            last as nat
        } else {
            parts.len()
        },
        |i: int|
            if i < last {
                without_return(parts[i])
            } else {
                parts[i]
            },
    )
}

/// The lines of a text.
pub fn lines_chars(text: &[char]) -> (out: Vec<Vec<char>>)
    ensures
        views(out@) == lines(text@),
{
    let feed = vec!['\n'];
    assert(feed@ =~= seq!['\n']);
    let parts = split_chars(text, feed.as_slice());
    let ghost all = split(text@, seq!['\n']);
    assert(views(parts@) == all);
    let last: usize = parts.len() - 1;
    let mut out: Vec<Vec<char>> = Vec::new();
    for i in 0..parts.len()
        invariant
            views(parts@) == all,
            all == split(text@, seq!['\n']),
            last == parts@.len() - 1,
            i <= last ==> views(out@) =~= Seq::new(i as nat, |j: int| without_return(all[j])),
            i > last ==> views(out@) =~= lines(text@),
    {
        let part = &parts[i];
        assert(all[i as int] == part@);
        let ghost before = views(out@);
        if i < last {
            let end: usize = if part.len() > 0 && part[part.len() - 1] == '\r' {
                part.len() - 1
            } else {
                part.len()
            };
            let line = sub_chars(part.as_slice(), 0, end);
            assert(line@ =~= without_return(part@));
            out.push(line);
            assert(views(out@) =~= before.push(line@));
        } else if part.len() > 0 {
            let line = sub_chars(part.as_slice(), 0, part.len());
            assert(line@ =~= part@);
            out.push(line);
            assert(views(out@) =~= before.push(line@));
        }
    }
    out
}

/// Texts with a `mark` between them.
pub open spec fn joined_by(parts: Seq<Seq<char>>, mark: char) -> Seq<char>
    decreases parts.len(),
{
    if parts.len() == 0 {
        Seq::empty()
    } else if parts.len() == 1 {
        parts[0]
    } else {
        parts[0] + seq![mark] + joined_by(parts.skip(1), mark)
    }
}

/// Splitting at the marks gives back what was joined, where no mark stands
/// within.
pub proof fn lemma_split_joined(parts: Seq<Seq<char>>, mark: char)
    requires
        parts.len() > 0,
        forall|i: int| 0 <= i < parts.len() ==> !(#[trigger] parts[i]).contains(mark),
    ensures
        split(joined_by(parts, mark), seq![mark]) == parts,
    decreases parts.len(),
{
    let text = joined_by(parts, mark);
    let pattern = seq![mark];
    let head = parts[0];
    assert forall|at: int| 0 <= at < head.len() implies !occurs_at(text, pattern, at) by {
        if occurs_at(text, pattern, at) {
            assert(text.subrange(at, at + 1)[0] == text[at]);
            assert(text[at] == head[at]);
            assert(head.contains(mark));
        }
    }
    if parts.len() == 1 {
        lemma_find_is_first(text, pattern);
        if let Some(at) = find(text, pattern) {
            assert(occurs_at(text, pattern, at));
            assert(!occurs_at(text, pattern, at));
        }
        assert(split(text, pattern) =~= parts);
    } else {
        let at = head.len() as int;
        assert(text.subrange(at, at + 1) =~= pattern);
        assert(first_at(text, pattern, at));
        lemma_find_first(text, pattern, at);
        let rest = parts.skip(1);
        assert forall|i: int| 0 <= i < rest.len() implies !(#[trigger] rest[i]).contains(mark) by {
            assert(rest[i] == parts[i + 1]);
        }
        lemma_split_joined(rest, mark);
        assert(text.take(at) =~= head);
        assert(text.skip(at + 1) =~= joined_by(rest, mark));
        assert(split(text, pattern) =~= parts);
    }
}

/// The parts around the first mark, where none stands before it.
pub proof fn lemma_split_once(head: Seq<char>, mark: char, tail: Seq<char>)
    requires
        !head.contains(mark),
    ensures
        split_once(head + seq![mark] + tail, seq![mark]) == Some((head, tail)),
{
    let text = head + seq![mark] + tail;
    let pattern = seq![mark];
    let at = head.len() as int;
    assert(text.subrange(at, at + 1) =~= pattern);
    assert forall|before: int| 0 <= before < at implies !occurs_at(text, pattern, before) by {
        if occurs_at(text, pattern, before) {
            assert(text.subrange(before, before + 1)[0] == text[before]);
            assert(head.contains(mark));
        }
    }
    assert(first_at(text, pattern, at));
    lemma_find_first(text, pattern, at);
    assert(text.take(at) =~= head);
    assert(text.skip(at + 1) =~= tail);
}

/// A text without the first character of `pattern` is in one piece.
pub proof fn lemma_split_whole(text: Seq<char>, pattern: Seq<char>)
    requires
        pattern.len() > 0,
        !text.contains(pattern[0]),
    ensures
        split(text, pattern) == seq![text],
{
    lemma_find_is_first(text, pattern);
    if let Some(at) = find(text, pattern) {
        assert(text.subrange(at, at + pattern.len())[0] == text[at]);
    }
}

/// A text without the first character of `pattern`, followed by `pattern`, is
/// the first piece.
pub proof fn lemma_split_piece(head: Seq<char>, pattern: Seq<char>, tail: Seq<char>)
    requires
        pattern.len() > 0,
        !head.contains(pattern[0]),
    ensures
        find(head + pattern + tail, pattern) == Some(head.len() as int),
        split(head + pattern + tail, pattern) == seq![head] + split(tail, pattern),
        split_once(head + pattern + tail, pattern) == Some((head, tail)),
{
    let text = head + pattern + tail;
    let at = head.len() as int;
    assert(text.subrange(at, at + pattern.len()) =~= pattern);
    assert forall|before: int| 0 <= before < at implies !occurs_at(text, pattern, before) by {
        if occurs_at(text, pattern, before) {
            assert(text.subrange(before, before + pattern.len())[0] == head[before]);
        }
    }
    lemma_find_first(text, pattern, at);
    assert(text.take(at) =~= head);
    assert(text.skip(at + pattern.len()) =~= tail);
}

/// A text without the mark, after the mark, is what follows the last mark.
pub proof fn lemma_rsplit_piece(head: Seq<char>, mark: char, tail: Seq<char>)
    requires
        !tail.contains(mark),
    ensures
        rsplit_once(head.push(mark) + tail, mark) == Some((head, tail)),
    decreases tail.len(),
{
    let text = head.push(mark) + tail;
    if tail.len() == 0 {
        assert(text =~= head.push(mark));
        assert(text.drop_last() =~= head);
        assert(tail =~= Seq::empty());
    } else {
        let shorter = tail.drop_last();
        assert forall|i: int| 0 <= i < shorter.len() implies shorter[i] != mark by {
            assert(tail.contains(tail[i]));
        }
        lemma_rsplit_piece(head, mark, shorter);
        assert(text.drop_last() =~= head.push(mark) + shorter);
        assert(text.last() == tail.last());
        assert(tail.contains(tail.last()));
        assert(shorter.push(tail.last()) =~= tail);
    }
}

/// Whether a text is one word: it is not empty and has no white space.
pub open spec fn is_word(text: Seq<char>) -> bool {
    text.len() > 0 && forall|i: int| 0 <= i < text.len() ==> !is_white(#[trigger] text[i])
}

proof fn lemma_word_prefix(word: Seq<char>, rest: Seq<char>)
    requires
        forall|i: int| 0 <= i < word.len() ==> !is_white(#[trigger] word[i]),
        rest.len() == 0 || is_white(rest[0]),
    ensures
        word_len(word + rest) == word.len(),
    decreases word.len(),
{
    if word.len() == 0 {
        assert(word + rest =~= rest);
    } else {
        assert((word + rest)[0] == word[0]);
        assert((word + rest).skip(1) =~= word.skip(1) + rest);
        lemma_word_prefix(word.skip(1), rest);
    }
}

/// A word that starts a text, or follows one space, is the first word.
pub proof fn lemma_next_word(word: Seq<char>, rest: Seq<char>)
    requires
        is_word(word),
        rest.len() == 0 || is_white(rest[0]),
    ensures
        next_word(word + rest) == (word, rest),
        next_word(seq![' '] + word + rest) == (word, rest),
{
    lemma_word_prefix(word, rest);
    assert((word + rest)[0] == word[0]);
    assert((word + rest).take(word.len() as int) =~= word);
    assert((word + rest).skip(word.len() as int) =~= rest);
    let spaced = seq![' '] + word + rest;
    assert(spaced[0] == ' ');
    assert(spaced.skip(1) =~= word + rest);
    assert(trim_start(word + rest) == word + rest);
    assert(trim_start(spaced) == trim_start(spaced.skip(1)));
}

/// A decimal number is one word, without marks.
pub proof fn lemma_decimal_word(value: nat)
    ensures
        is_word(decimal(value)),
        all_digits(decimal(value)),
{
    lemma_decimal_digits(value);
}

/// The encoding of a text is empty only where the text is.
pub proof fn lemma_utf8_nonempty(text: Seq<char>)
    requires
        text.len() > 0,
    ensures
        utf8(text).len() > 0,
{
    lemma_utf8_round_trip(text);
    if utf8(text).len() == 0 {
        let none = Seq::<char>::empty();
        lemma_utf8_round_trip(none);
        assert(utf8(text) =~= utf8(none));
    }
}

/// The encoding of two texts is that of one, then that of the other.
pub proof fn lemma_utf8_concat(left: Seq<char>, right: Seq<char>)
    ensures
        utf8(left + right) == utf8(left) + utf8(right),
    decreases left.len(),
{
    if left.len() == 0 {
        assert(left + right =~= right);
        assert(utf8(left) + utf8(right) =~= utf8(right));
    } else {
        lemma_utf8_concat(left.drop_first(), right);
        assert((left + right).drop_first() =~= left.drop_first() + right);
        let first = encode_scalar(left[0] as u32);
        assert(first + (utf8(left.drop_first()) + utf8(right)) =~= first + utf8(left.drop_first())
            + utf8(right));
    }
}

/// The encoding of a character holds no other ASCII character.
proof fn lemma_scalar_bytes(c: char, mark: char)
    requires
        c != mark,
        (mark as u32) < 0x80,
    ensures
        !encode_scalar(c as u32).contains(mark as u8),
{
    let scalar = c as u32;
    assert(scalar <= 0x7f ==> (scalar & 0x7f) as u8 == scalar) by (bit_vector);
    assert((0xC0u8 | ((scalar >> 6) & 0x1F) as u8) >= 0x80) by (bit_vector);
    assert((0xE0u8 | ((scalar >> 12) & 0x0F) as u8) >= 0x80) by (bit_vector);
    assert((0xF0u8 | ((scalar >> 18) & 0x7) as u8) >= 0x80) by (bit_vector);
    assert((0x80u8 | (scalar & 0x3F) as u8) >= 0x80) by (bit_vector);
    assert((0x80u8 | ((scalar >> 6) & 0x3F) as u8) >= 0x80) by (bit_vector);
    assert((0x80u8 | ((scalar >> 12) & 0x3F) as u8) >= 0x80) by (bit_vector);
}

/// An ASCII character that is not in a text is not in its encoding.
pub proof fn lemma_utf8_without(text: Seq<char>, mark: char)
    requires
        (mark as u32) < 0x80,
        !text.contains(mark),
    ensures
        !utf8(text).contains(mark as u8),
    decreases text.len(),
{
    if text.len() > 0 {
        let rest = text.drop_first();
        assert(text.contains(text[0]));
        assert forall|i: int| 0 <= i < rest.len() implies rest[i] != mark by {
            assert(text.contains(text[i + 1]));
        }
        lemma_utf8_without(rest, mark);
        lemma_scalar_bytes(text[0], mark);
        let first = encode_scalar(text[0] as u32);
        let bytes = utf8(text);
        assert(bytes == first + utf8(rest));
        assert forall|i: int| 0 <= i < bytes.len() implies bytes[i] != mark as u8 by {
            if i < first.len() {
                assert(first.contains(first[i]));
            } else {
                assert(utf8(rest).contains(utf8(rest)[i - first.len()]));
            }
        }
    }
}

/// A number is written by its digits from `0` to `9`, the last for what is left
/// after tens, the others for the tens.
pub proof fn law_decimal(value: nat)
    ensures
        value < 10 ==> decimal(value).len() == 1 && decimal(value)[0] as int == 48 + value,
        value >= 10 ==> decimal(value) == decimal(value / 10) + decimal(value % 10),
{
    if value >= 10 {
        assert(decimal(value) =~= decimal(value / 10) + decimal(value % 10));
    }
}

/// A number is read from its digits, with a plus sign or without; nothing else
/// is a number, and neither is one beyond the limit.
pub proof fn law_parse_number(text: Seq<char>, value: nat, limit: nat, at: int)
    ensures
        value <= limit ==> parse_number(decimal(value), limit) == Some(value),
        value <= limit ==> parse_number(seq!['+'] + decimal(value), limit) == Some(value),
        value > limit ==> parse_number(decimal(value), limit) is None,
        text.len() == 0 ==> parse_number(text, limit) is None,
        0 < at < text.len() && !('0' <= text[at] && text[at] <= '9') ==> parse_number(text, limit)
            is None,
        text.len() > 0 && text[0] != '+' && !('0' <= text[0] && text[0] <= '9') ==> parse_number(
            text,
            limit,
        ) is None,
{
    lemma_decimal_digits(value);
    assert('0' <= decimal(value)[0]);
    assert((seq!['+'] + decimal(value)).skip(1) =~= decimal(value));
    if 0 < at < text.len() && text[0] == '+' {
        assert(text.skip(1)[at - 1] == text[at]);
    }
}

/// Lower case changes the letters from `A` to `Z` to those thirty-two places
/// later and nothing else.
pub proof fn law_lower(text: Seq<char>, at: int)
    requires
        0 <= at < text.len(),
    ensures
        lower(text).len() == text.len(),
        'A' <= text[at] && text[at] <= 'Z' ==> lower(text)[at] as int == text[at] as int + 32,
        !('A' <= text[at] && text[at] <= 'Z') ==> lower(text)[at] == text[at],
{
}

/// Spaces, tabs and the ends of lines are white space; what can be seen in ASCII
/// is not.
pub proof fn law_white(c: char)
    ensures
        is_white(' ') && is_white('\t') && is_white('\r') && is_white('\n'),
        '!' <= c && c <= '~' ==> !is_white(c),
{
}

/// The place that is found is the first at which the pattern stands; nothing is
/// found where it stands nowhere.
pub proof fn law_find(text: Seq<char>, pattern: Seq<char>, before: Seq<char>, after: Seq<char>)
    ensures
        text == before + pattern + after ==> (find(text, pattern) matches Some(at) && 0 <= at
            <= before.len() && text.subrange(at, at + pattern.len()) == pattern),
        find(text, pattern) matches Some(at) ==> 0 <= at && at + pattern.len() <= text.len()
            && text == text.take(at) + pattern + text.skip(at + pattern.len()),
{
    lemma_find_is_first(text, pattern);
    if text == before + pattern + after {
        let place = before.len() as int;
        assert(text.subrange(place, place + pattern.len()) =~= pattern);
        assert(occurs_at(text, pattern, place));
    }
    if let Some(at) = find(text, pattern) {
        assert forall|i: int| 0 <= i < pattern.len() implies text[at + i] == pattern[i] by {
            assert(text.subrange(at, at + pattern.len())[i] == pattern[i]);
        }
        assert(text =~= text.take(at) + pattern + text.skip(at + pattern.len()));
    }
}

/// A byte in hexadecimal has one digit below sixteen and two from there on, of
/// `0` to `9` and `a` to `f`.
pub proof fn law_hexadecimal(value: u8)
    ensures
        ({
            let digit = |c: char|
                if '0' <= c && c <= '9' {
                    c as int - 48
                } else if 'a' <= c && c <= 'f' {
                    c as int - 87
                } else {
                    16
                };
            let text = hexadecimal(value);
            &&& value < 16 ==> text.len() == 1 && digit(text[0]) == value
            &&& value >= 16 ==> text.len() == 2 && digit(text[1]) < 16 && digit(text[0]) * 16
                + digit(text[1]) == value
        }),
{
}

/// The first line of a text ends at its first line feed, and a carriage return
/// before that does not belong to it; a text without a line feed is one line.
pub proof fn law_first_line(line: Seq<char>, more: Seq<char>)
    requires
        line.len() > 0,
        !line.contains('\n'),
        line.last() != '\r',
    ensures
        lines(line) == seq![line],
        lines(line + seq!['\n'] + more).len() > 0 && lines(line + seq!['\n'] + more)[0] == line,
        lines(line + seq!['\r', '\n'] + more).len() > 0 && lines(
            line + seq!['\r', '\n'] + more,
        )[0] == line,
{
    let mark = seq!['\n'];
    lemma_split_whole(line, mark);
    assert(lines(line) =~= seq![line]);
    let plain = line + mark + more;
    lemma_split_piece(line, mark, more);
    lemma_split_nonempty(more, mark);
    let returned = line.push('\r');
    assert(!returned.contains('\n')) by {
        assert forall|i: int| 0 <= i < returned.len() implies returned[i] != '\n' by {
            if i < line.len() {
                assert(line.contains(line[i]));
            }
        }
    }
    assert(line + seq!['\r', '\n'] + more =~= returned + mark + more);
    lemma_split_piece(returned, mark, more);
    assert(without_return(line) == line);
    assert(returned.drop_last() =~= line);
}

proof fn lemma_split_nonempty(text: Seq<char>, pattern: Seq<char>)
    ensures
        split(text, pattern).len() > 0,
{
}

} // verus!
