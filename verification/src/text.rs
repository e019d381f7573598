//! Text as sequences of characters: the small operations on strings that the
//! rest of the library is built from.
use vstd::prelude::*;
use vstd::string::*;

verus! {

broadcast use vstd::string::group_string_axioms;

/// `String::push` appends one character.
pub assume_specification[ String::push ](text: &mut String, c: char)
    ensures
        final(text)@ == old(text)@.push(c),
;

/// The views of the items of a sequence, in order.
pub open spec fn views<T: View>(items: Seq<T>) -> Seq<T::V> {
    items.map_values(|item: T| item@)
}

pub broadcast proof fn lemma_views_push<T: View>(items: Seq<T>, item: T)
    ensures
        #[trigger] views(items.push(item)) == views(items).push(item@),
{
    assert(views(items.push(item)) =~= views(items).push(item@));
}

pub broadcast proof fn lemma_views_empty<T: View>()
    ensures
        #[trigger] views(Seq::<T>::empty()) == Seq::<T::V>::empty(),
{
    assert(views(Seq::<T>::empty()) =~= Seq::<T::V>::empty());
}

/// The characters of a string.
pub fn chars_of(text: &str) -> (chars: Vec<char>)
    ensures
        chars@ == text@,
{
    let mut chars: Vec<char> = Vec::new();
    for c in it: text.chars()
        invariant
            chars@ == text@.take(it.index() as int),
            it.seq() == text@,
    {
        chars.push(c);
    }
    chars
}

/// The string with the characters of `chars` from `from` up to `to`.
pub fn text_between(chars: &[char], from: usize, to: usize) -> (text: String)
    requires
        from <= to <= chars@.len(),
    ensures
        text@ == chars@.subrange(from as int, to as int),
{
    let mut text = String::new();
    let mut i: usize = from;
    while i < to
        invariant
            from <= i <= to <= chars@.len(),
            text@ == chars@.subrange(from as int, i as int),
        decreases to - i,
    {
        text.push(chars[i]);
        i += 1;
    }
    text
}

/// Whether two strings hold the same characters.
pub fn same(a: &str, b: &str) -> (equal: bool)
    ensures
        equal == (a@ == b@),
{
    a.to_owned() == b.to_owned()
}

/// `left` followed by `right`.
pub fn joined(left: &str, right: &str) -> (text: String)
    ensures
        text@ == left@ + right@,
{
    let mut text = left.to_owned();
    text.append(right);
    text
}

/// `a`, `b` and `c`, one after the other.
pub fn joined3(a: &str, b: &str, c: &str) -> (text: String)
    ensures
        text@ == a@ + b@ + c@,
{
    let mut text = a.to_owned();
    text.append(b);
    text.append(c);
    text
}

/// A copy of a list of strings.
pub fn copy_texts(texts: &Vec<String>) -> (copy: Vec<String>)
    ensures
        views(copy@) == views(texts@),
{
    let mut copy: Vec<String> = Vec::new();
    let mut i: usize = 0;
    while i < texts.len()
        invariant
            i <= texts.len(),
            copy.len() == i,
            forall|k: int| 0 <= k < i ==> (#[trigger] copy@[k])@ == texts@[k]@,
        decreases texts.len() - i,
    {
        copy.push(texts[i].clone());
        i += 1;
    }
    assert(views(copy@) =~= views(texts@));
    copy
}

// ---------------------------------------------------------------------------
// Prefixes, suffixes and substrings
// ---------------------------------------------------------------------------
/// Whether `text` begins with `prefix`.
pub open spec fn starts_with(text: Seq<char>, prefix: Seq<char>) -> bool {
    prefix.len() <= text.len() && text.take(prefix.len() as int) == prefix
}

/// Whether `pattern` stands at position `at` of `text`.
pub open spec fn occurs_at<T>(text: Seq<T>, pattern: Seq<T>, at: int) -> bool {
    0 <= at && at + pattern.len() <= text.len() && text.subrange(at, at + pattern.len()) == pattern
}

/// Whether `pattern` stands somewhere in `text`.
pub open spec fn occurs_in<T>(text: Seq<T>, pattern: Seq<T>) -> bool {
    exists|at: int| #[trigger] occurs_at(text, pattern, at)
}

/// Whether `chars` begins with `prefix`.
pub fn has_prefix(chars: &[char], prefix: &[char]) -> (found: bool)
    ensures
        found == starts_with(chars@, prefix@),
{
    if prefix.len() > chars.len() {
        return false;
    }
    let mut i: usize = 0;
    while i < prefix.len()
        invariant
            i <= prefix.len() <= chars.len(),
            forall|k: int| 0 <= k < i ==> chars@[k] == prefix@[k],
        decreases prefix.len() - i,
    {
        if chars[i] != prefix[i] {
            assert(chars@.take(prefix@.len() as int)[i as int] != prefix@[i as int]);
            return false;
        }
        i += 1;
    }
    assert(chars@.take(prefix@.len() as int) =~= prefix@);
    true
}

/// Whether `pattern` stands somewhere in `text`.
pub fn contains_text(text: &str, pattern: &str) -> (found: bool)
    ensures
        found == occurs_in(text@, pattern@),
{
    let chars = chars_of(text);
    let wanted = chars_of(pattern);
    if wanted.len() > chars.len() {
        return false;
    }
    let mut at: usize = 0;
    while at <= chars.len() - wanted.len()
        invariant
            wanted.len() <= chars.len(),
            chars@ == text@,
            wanted@ == pattern@,
            at <= chars.len() - wanted.len() + 1,
            forall|k: int| 0 <= k < at ==> !#[trigger] occurs_at(text@, pattern@, k),
        decreases chars.len() - wanted.len() + 1 - at,
    {
        let mut i: usize = 0;
        while i < wanted.len() && chars[at + i] == wanted[i]
            invariant
                wanted.len() <= chars.len(),
                at <= chars.len() - wanted.len(),
                i <= wanted.len(),
                forall|k: int| 0 <= k < i ==> chars@[at + k] == wanted@[k],
            decreases wanted.len() - i,
        {
            i += 1;
        }
        if i == wanted.len() {
            assert(text@.subrange(at as int, at + pattern@.len()) =~= pattern@);
            assert(occurs_at(text@, pattern@, at as int));
            return true;
        }
        assert(!occurs_at(text@, pattern@, at as int)) by {
            if occurs_at(text@, pattern@, at as int) {
                assert(text@.subrange(at as int, at + pattern@.len())[i as int] == chars@[at + i]);
            }
        }
        if at == chars.len() - wanted.len() {
            return false;
        }
        at += 1;
    }
    false
}

/// Whether `pattern` stands somewhere in `bytes`.
pub fn contains_bytes(bytes: &[u8], pattern: &[u8]) -> (found: bool)
    ensures
        found == occurs_in(bytes@, pattern@),
{
    if pattern.len() > bytes.len() {
        return false;
    }
    let mut at: usize = 0;
    while at <= bytes.len() - pattern.len()
        invariant
            pattern.len() <= bytes.len(),
            at <= bytes.len() - pattern.len() + 1,
            forall|k: int| 0 <= k < at ==> !#[trigger] occurs_at(bytes@, pattern@, k),
        decreases bytes.len() - pattern.len() + 1 - at,
    {
        let mut i: usize = 0;
        while i < pattern.len() && bytes[at + i] == pattern[i]
            invariant
                pattern.len() <= bytes.len(),
                at <= bytes.len() - pattern.len(),
                i <= pattern.len(),
                forall|k: int| 0 <= k < i ==> bytes@[at + k] == pattern@[k],
            decreases pattern.len() - i,
        {
            i += 1;
        }
        if i == pattern.len() {
            assert(bytes@.subrange(at as int, at + pattern@.len()) =~= pattern@);
            assert(occurs_at(bytes@, pattern@, at as int));
            return true;
        }
        assert(!occurs_at(bytes@, pattern@, at as int)) by {
            if occurs_at(bytes@, pattern@, at as int) {
                assert(bytes@.subrange(at as int, at + pattern@.len())[i as int] == bytes@[at + i]);
            }
        }
        if at == bytes.len() - pattern.len() {
            return false;
        }
        at += 1;
    }
    false
}

// ---------------------------------------------------------------------------
// White space and trimming
// ---------------------------------------------------------------------------
/// The characters with the Unicode property `White_Space`.
pub open spec fn whitespace(c: char) -> bool {
    ||| 0x9 <= c as u32 <= 0xd
    ||| c as u32 == 0x20
    ||| c as u32 == 0x85
    ||| c as u32 == 0xa0
    ||| c as u32 == 0x1680
    ||| 0x2000 <= c as u32 <= 0x200a
    ||| c as u32 == 0x2028
    ||| c as u32 == 0x2029
    ||| c as u32 == 0x202f
    ||| c as u32 == 0x205f
    ||| c as u32 == 0x3000
}

pub fn is_whitespace(c: char) -> (space: bool)
    ensures
        space == whitespace(c),
{
    let code: u32 = c as u32;
    (0x9 <= code && code <= 0xd) || code == 0x20 || code == 0x85 || code == 0xa0 || code == 0x1680
        || (0x2000 <= code && code <= 0x200a) || code == 0x2028 || code == 0x2029 || code == 0x202f
        || code == 0x205f || code == 0x3000
}

/// The text without the white space that it begins with.
pub open spec fn trim_start(text: Seq<char>) -> Seq<char>
    decreases text.len(),
{
    if text.len() > 0 && whitespace(text[0]) {
        trim_start(text.skip(1))
    } else {
        text
    }
}

/// The text without the white space that it ends with.
pub open spec fn trim_end(text: Seq<char>) -> Seq<char>
    decreases text.len(),
{
    if text.len() > 0 && whitespace(text.last()) {
        trim_end(text.drop_last())
    } else {
        text
    }
}

/// The text without the white space at either end.
pub open spec fn trim(text: Seq<char>) -> Seq<char> {
    trim_end(trim_start(text))
}

proof fn lemma_trim_start_push(text: Seq<char>, c: char)
    requires
        whitespace(c),
    ensures
        trim_start(text.push(c)) == if trim_start(text).len() == 0 {
            Seq::empty()
        } else {
            trim_start(text).push(c)
        },
    decreases text.len(),
{
    let longer = text.push(c);
    if text.len() == 0 {
        reveal_with_fuel(trim_start, 2);
        assert(longer.skip(1) =~= Seq::<char>::empty());
    } else if whitespace(text[0]) {
        lemma_trim_start_push(text.skip(1), c);
        assert(longer.skip(1) =~= text.skip(1).push(c));
    }
}

/// White space at the end of a text is trimmed away.
pub proof fn lemma_trim_push(text: Seq<char>, c: char)
    requires
        whitespace(c),
    ensures
        trim(text.push(c)) == trim(text),
{
    lemma_trim_start_push(text, c);
    let rest = trim_start(text);
    if rest.len() > 0 {
        assert(rest.push(c).drop_last() =~= rest);
    }
}

/// The text without the white space that it begins with.
pub fn trimmed_start(chars: &[char]) -> (text: Vec<char>)
    ensures
        text@ == trim_start(chars@),
{
    let mut from: usize = 0;
    assert(chars@.skip(0) =~= chars@);
    while from < chars.len() && is_whitespace(chars[from])
        invariant
            from <= chars.len(),
            trim_start(chars@) == trim_start(chars@.skip(from as int)),
        decreases chars.len() - from,
    {
        assert(chars@.skip(from as int).skip(1) =~= chars@.skip(from + 1));
        from += 1;
    }
    chars_between(chars, from, chars.len())
}

/// The characters from `from` up to `to`.
pub fn chars_between(chars: &[char], from: usize, to: usize) -> (part: Vec<char>)
    requires
        from <= to <= chars@.len(),
    ensures
        part@ == chars@.subrange(from as int, to as int),
{
    let mut part: Vec<char> = Vec::new();
    let mut i: usize = from;
    while i < to
        invariant
            from <= i <= to <= chars@.len(),
            part@ == chars@.subrange(from as int, i as int),
        decreases to - i,
    {
        part.push(chars[i]);
        i += 1;
    }
    part
}

/// The text without the white space at either end.
pub fn trimmed(chars: &[char]) -> (text: Vec<char>)
    ensures
        text@ == trim(chars@),
{
    let text = trimmed_start(chars);
    let mut to: usize = text.len();
    assert(text@.take(to as int) =~= text@);
    while to > 0 && is_whitespace(text[to - 1])
        invariant
            to <= text.len(),
            trim_end(text@) == trim_end(text@.take(to as int)),
        decreases to,
    {
        assert(text@.take(to as int).drop_last() =~= text@.take(to - 1));
        to -= 1;
    }
    assert(text@.take(to as int) =~= text@.subrange(0, to as int));
    chars_between(&text, 0, to)
}

// ---------------------------------------------------------------------------
// Splitting
// ---------------------------------------------------------------------------
/// The pieces of `text` between the characters that `separates` picks.
pub open spec fn split_by(text: Seq<char>, separates: spec_fn(char) -> bool) -> Seq<Seq<char>>
    decreases text.len(),
{
    if text.len() == 0 {
        seq![Seq::<char>::empty()]
    } else {
        let before = split_by(text.drop_last(), separates);
        if separates(text.last()) {
            before.push(Seq::<char>::empty())
        } else {
            before.drop_last().push(before.last().push(text.last()))
        }
    }
}

/// The pieces of `text` between the occurrences of `separator`.
pub open spec fn split_on(text: Seq<char>, separator: char) -> Seq<Seq<char>> {
    split_by(text, |c: char| c == separator)
}

/// The words of `text`: its longest runs of characters that are not white space.
pub open spec fn words(text: Seq<char>) -> Seq<Seq<char>> {
    split_by(text, |c: char| whitespace(c)).filter(|word: Seq<char>| word.len() > 0)
}

/// A line without the carriage return that it ends with.
pub open spec fn strip_return(line: Seq<char>) -> Seq<char> {
    if line.len() > 0 && line.last() == '\r' {
        line.drop_last()
    } else {
        line
    }
}

/// The lines of a text: each ends at a line feed, which with a carriage
/// return before it is not part of the line; what follows the last line feed
/// is a line where it is not empty.
pub open spec fn lines(text: Seq<char>) -> Seq<Seq<char>> {
    let pieces = split_on(text, '\n');
    let ended = pieces.drop_last().map_values(|line: Seq<char>| strip_return(line));
    if pieces.last().len() == 0 {
        ended
    } else {
        ended.push(pieces.last())
    }
}

pub proof fn lemma_split_nonempty(text: Seq<char>, separates: spec_fn(char) -> bool)
    ensures
        split_by(text, separates).len() > 0,
    decreases text.len(),
{
    if text.len() > 0 {
        lemma_split_nonempty(text.drop_last(), separates);
    }
}

/// Texts with a separator between them are split as each of them is.
pub proof fn lemma_split_join(a: Seq<char>, b: Seq<char>, separator: char)
    ensures
        split_on(a + seq![separator] + b, separator) == split_on(a, separator) + split_on(
            b,
            separator,
        ),
    decreases b.len(),
{
    let separates = |c: char| c == separator;
    let whole = a + seq![separator] + b;
    if b.len() == 0 {
        assert(whole.drop_last() =~= a);
        assert(split_on(whole, separator) =~= split_on(a, separator) + split_on(b, separator));
    } else {
        let shorter = b.drop_last();
        lemma_split_join(a, shorter, separator);
        lemma_split_nonempty(shorter, separates);
        assert(whole.drop_last() =~= a + seq![separator] + shorter);
        assert(whole.last() == b.last());
        assert(split_on(whole, separator) =~= split_on(a, separator) + split_on(b, separator));
    }
}

/// What is appended without a separator belongs to the last piece.
pub proof fn lemma_split_append(text: Seq<char>, tail: Seq<char>, separator: char)
    requires
        forall|i: int| 0 <= i < tail.len() ==> #[trigger] tail[i] != separator,
    ensures
        split_on(text + tail, separator) == split_on(text, separator).drop_last().push(
            split_on(text, separator).last() + tail,
        ),
    decreases tail.len(),
{
    let pieces = split_on(text, separator);
    lemma_split_nonempty(text, |c: char| c == separator);
    if tail.len() == 0 {
        assert(text + tail =~= text);
        assert(pieces.last() + tail =~= pieces.last());
        assert(pieces.drop_last().push(pieces.last()) =~= pieces);
    } else {
        let shorter = tail.drop_last();
        assert forall|i: int| 0 <= i < shorter.len() implies #[trigger] shorter[i]
            != separator by {
            assert(shorter[i] == tail[i]);
        }
        lemma_split_append(text, shorter, separator);
        assert((text + tail).drop_last() =~= text + shorter);
        assert((text + tail).last() == tail[tail.len() - 1]);
        let before = pieces.drop_last().push(pieces.last() + shorter);
        assert(before.drop_last() =~= pieces.drop_last());
        assert((pieces.last() + shorter).push(tail.last()) =~= pieces.last() + tail);
    }
}

/// The pieces of `text` between the occurrences of `separator`.
pub fn split_text(chars: &[char], separator: char) -> (pieces: Vec<String>)
    ensures
        views(pieces@) == split_on(chars@, separator),
        pieces.len() > 0,
{
    broadcast use {lemma_views_push, lemma_views_empty};

    let mut pieces: Vec<String> = Vec::new();
    let mut piece = String::new();
    let mut i: usize = 0;
    assert(views(pieces@).push(piece@) =~= split_on(chars@.take(0), separator));
    while i < chars.len()
        invariant
            i <= chars.len(),
            views(pieces@).push(piece@) == split_on(chars@.take(i as int), separator),
        decreases chars.len() - i,
    {
        broadcast use {lemma_views_push, lemma_views_empty};

        let ghost before = views(pieces@);
        let ghost current = piece@;
        assert(chars@.take(i + 1).drop_last() =~= chars@.take(i as int));
        assert(before.push(current).drop_last() =~= before);
        if chars[i] == separator {
            pieces.push(piece);
            piece = String::new();
        } else {
            piece.push(chars[i]);
        }
        i += 1;
    }
    assert(chars@.take(i as int) =~= chars@);
    pieces.push(piece);
    assert(views(pieces@).len() == pieces@.len());
    pieces
}

/// The lines of a text.
pub fn lines_of(text: &str) -> (result: Vec<String>)
    ensures
        views(result@) == lines(text@),
{
    broadcast use {lemma_views_push, lemma_views_empty};

    let chars = chars_of(text);
    let pieces = split_text(&chars, '\n');
    let ghost split = split_on(text@, '\n');
    let ghost ended = split.drop_last().map_values(|line: Seq<char>| strip_return(line));
    let mut result: Vec<String> = Vec::new();
    let last: usize = pieces.len() - 1;
    let mut i: usize = 0;
    while i < last
        invariant
            last == pieces.len() - 1,
            i <= last,
            split == views(pieces@),
            ended == split.drop_last().map_values(|line: Seq<char>| strip_return(line)),
            views(result@) == ended.take(i as int),
        decreases last - i,
    {
        broadcast use {lemma_views_push, lemma_views_empty};

        let line = chars_of(&pieces[i]);
        let length: usize = line.len();
        let kept: usize = if length > 0 && line[length - 1] == '\r' {
            length - 1
        } else {
            length
        };
        let stripped = text_between(&line, 0, kept);
        assert(split[i as int] == line@);
        assert(stripped@ =~= strip_return(line@));
        result.push(stripped);
        i += 1;
        assert(ended.take(i as int) =~= ended.take(i - 1).push(strip_return(line@)));
    }
    assert(ended.take(last as int) =~= ended);
    assert(split.last() == pieces@[last as int]@);
    if !pieces[last].as_str().is_empty() {
        result.push(pieces[last].clone());
    }
    result
}

/// The words of a text.
pub fn words_of(text: &str) -> (result: Vec<String>)
    ensures
        views(result@) == words(text@),
{
    broadcast use {lemma_views_push, lemma_views_empty};

    let chars = chars_of(text);
    let ghost separates = |c: char| whitespace(c);
    let ghost kept = |word: Seq<char>| word.len() > 0;
    let ghost mut before = Seq::<Seq<char>>::empty();
    let mut result: Vec<String> = Vec::new();
    let mut word = String::new();
    let mut i: usize = 0;
    proof {
        assert(before.push(word@) =~= split_by(chars@.take(0), separates));
        reveal(Seq::filter);
        assert(before.filter(kept) =~= Seq::<Seq<char>>::empty());
    }
    while i < chars.len()
        invariant
            i <= chars.len(),
            separates == (|c: char| whitespace(c)),
            kept == (|word: Seq<char>| word.len() > 0),
            before.push(word@) == split_by(chars@.take(i as int), separates),
            views(result@) == before.filter(kept),
        decreases chars.len() - i,
    {
        broadcast use {lemma_views_push, lemma_views_empty};

        proof {
            reveal(Seq::filter);
            assert(chars@.take(i + 1).drop_last() =~= chars@.take(i as int));
            assert(before.push(word@).drop_last() =~= before);
        }
        if is_whitespace(chars[i]) {
            proof {
                let grown = before.push(word@);
                assert(grown.drop_last() =~= before);
                before = grown;
            }
            if !word.as_str().is_empty() {
                result.push(word);
            }
            word = String::new();
        } else {
            word.push(chars[i]);
        }
        i += 1;
    }
    proof {
        reveal(Seq::filter);
        assert(chars@.take(i as int) =~= chars@);
        assert(before.push(word@).drop_last() =~= before);
    }
    if !word.as_str().is_empty() {
        result.push(word);
    }
    result
}

/// The position of the first `wanted` in `text`, or its length.
pub open spec fn position(text: Seq<char>, wanted: char) -> nat
    decreases text.len(),
{
    if text.len() == 0 || text[0] == wanted {
        0
    } else {
        1 + position(text.skip(1), wanted)
    }
}

pub proof fn lemma_position(text: Seq<char>, wanted: char)
    ensures
        position(text, wanted) <= text.len(),
        position(text, wanted) < text.len() ==> text[position(text, wanted) as int] == wanted,
        forall|k: int| 0 <= k < position(text, wanted) ==> text[k] != wanted,
    decreases text.len(),
{
    if text.len() > 0 && text[0] != wanted {
        lemma_position(text.skip(1), wanted);
        assert forall|k: int| 0 <= k < position(text, wanted) implies text[k] != wanted by {
            if k > 0 {
                assert(text[k] == text.skip(1)[k - 1]);
            }
        }
    }
}

/// The first `wanted` is where it stands with none before it.
pub proof fn lemma_position_is(text: Seq<char>, wanted: char, at: int)
    requires
        0 <= at <= text.len(),
        forall|k: int| 0 <= k < at ==> #[trigger] text[k] != wanted,
        at < text.len() ==> text[at] == wanted,
    ensures
        position(text, wanted) == at,
{
    lemma_position(text, wanted);
    let found = position(text, wanted) as int;
    if found < at {
        assert(text[found] != wanted);
    }
}

/// The position of the first `wanted`, or the number of characters.
pub fn find_char(chars: &[char], wanted: char) -> (at: usize)
    ensures
        at == position(chars@, wanted),
        at <= chars.len(),
        at < chars.len() ==> chars@[at as int] == wanted,
        forall|k: int| 0 <= k < at ==> chars@[k] != wanted,
{
    let mut at: usize = 0;
    assert(chars@.skip(0) =~= chars@);
    while at < chars.len() && chars[at] != wanted
        invariant
            at <= chars.len(),
            position(chars@, wanted) == at + position(chars@.skip(at as int), wanted),
            forall|k: int| 0 <= k < at ==> chars@[k] != wanted,
        decreases chars.len() - at,
    {
        assert(chars@.skip(at as int).skip(1) =~= chars@.skip(at + 1));
        at += 1;
    }
    at
}

// ---------------------------------------------------------------------------
// Numbers
// ---------------------------------------------------------------------------
/// The decimal digit of a number below ten.
pub open spec fn digit(n: nat) -> char {
    (('0' as u32) + n) as u32 as char
}

/// A number in decimal.
pub open spec fn decimal(n: nat) -> Seq<char>
    decreases n,
{
    if n < 10 {
        seq![digit(n)]
    } else {
        decimal(n / 10).push(digit(n % 10))
    }
}

/// The value of a decimal digit, or ten where the character is none.
pub open spec fn digit_value(c: char) -> nat {
    if '0' <= c && c <= '9' {
        (c as u32 - '0' as u32) as nat
    } else {
        10
    }
}

/// The number that a run of decimal digits writes.
pub open spec fn digits_value(digits: Seq<char>) -> nat
    decreases digits.len(),
{
    if digits.len() == 0 {
        0
    } else {
        digits_value(digits.drop_last()) * 10 + digit_value(digits.last())
    }
}

/// The digits of a number as it is written: after an optional plus sign.
pub open spec fn unsigned(text: Seq<char>) -> Seq<char> {
    if text.len() > 0 && text[0] == '+' {
        text.skip(1)
    } else {
        text
    }
}

/// The number that `text` writes in decimal, where it is at most `max`.
pub open spec fn parse_decimal(text: Seq<char>, max: nat) -> Option<nat> {
    let digits = unsigned(text);
    if digits.len() > 0 && (forall|k: int| 0 <= k < digits.len() ==> digit_value(digits[k]) < 10)
        && digits_value(digits) <= max {
        Some(digits_value(digits))
    } else {
        None
    }
}

/// One decimal digit.
pub fn digit_char(n: u64) -> (c: char)
    requires
        n < 10,
    ensures
        c == digit(n as nat),
{
    match n {
        0 => '0',
        1 => '1',
        2 => '2',
        3 => '3',
        4 => '4',
        5 => '5',
        6 => '6',
        7 => '7',
        8 => '8',
        _ => '9',
    }
}

/// A number in decimal.
pub fn decimal_text(n: u64) -> (text: String)
    ensures
        text@ == decimal(n as nat),
    decreases n,
{
    if n < 10 {
        let mut text = String::new();
        text.push(digit_char(n));
        assert(text@ =~= decimal(n as nat));
        text
    } else {
        let mut text = decimal_text(n / 10);
        text.push(digit_char(n % 10));
        text
    }
}

/// A number below one hundred in two digits; a larger one in decimal.
pub open spec fn two_digits(n: nat) -> Seq<char> {
    if n < 10 {
        seq!['0', digit(n)]
    } else {
        decimal(n)
    }
}

/// A number with at least two digits.
pub fn two_digit_text(n: u64) -> (text: String)
    ensures
        text@ == two_digits(n as nat),
{
    if n < 10 {
        let mut text = String::new();
        text.push('0');
        text.push(digit_char(n));
        assert(text@ =~= two_digits(n as nat));
        text
    } else {
        decimal_text(n)
    }
}

proof fn lemma_digits_prefix(digits: Seq<char>, i: int)
    requires
        0 <= i <= digits.len(),
    ensures
        digits_value(digits.take(i)) <= digits_value(digits),
    decreases digits.len() - i,
{
    if i < digits.len() {
        lemma_digits_prefix(digits, i + 1);
        assert(digits.take(i + 1).drop_last() =~= digits.take(i));
    } else {
        assert(digits.take(i) =~= digits);
    }
}

/// The number that `text` writes in decimal, where it is at most `max`.
pub fn parse_number(text: &str, max: u64) -> (number: Option<u64>)
    ensures
        (match number {
            Some(n) => Some(n as nat),
            None => None,
        }) == parse_decimal(text@, max as nat),
{
    let chars = chars_of(text);
    let from: usize = if chars.len() > 0 && chars[0] == '+' {
        1
    } else {
        0
    };
    let ghost digits = unsigned(text@);
    assert(digits =~= chars@.skip(from as int));
    if from == chars.len() {
        return None;
    }
    let mut value: u64 = 0;
    let mut i: usize = from;
    assert(digits.take(0) =~= Seq::<char>::empty());
    while i < chars.len()
        invariant
            from <= i <= chars.len(),
            digits == chars@.skip(from as int),
            value == digits_value(digits.take(i - from)),
            value <= max,
            forall|k: int| 0 <= k < i - from ==> digit_value(digits[k]) < 10,
            digits.len() > 0,
            digits == unsigned(text@),
        decreases chars.len() - i,
    {
        let c: char = chars[i];
        assert(digits[i - from] == c);
        if !('0' <= c && c <= '9') {
            assert(digit_value(digits[i - from]) == 10);
            return None;
        }
        let units: u64 = (c as u32 - '0' as u32) as u64;
        assert(digits.take(i + 1 - from).drop_last() =~= digits.take(i - from));
        let ghost grown = digits_value(digits.take(i + 1 - from));
        assert(grown == value * 10 + units);
        if value > (u64::MAX - units) / 10 || value * 10 + units > max {
            proof {
                lemma_digits_prefix(digits, i + 1 - from);
            }
            return None;
        }
        value = value * 10 + units;
        i += 1;
    }
    assert(digits.take(i - from) =~= digits);
    Some(value)
}

proof fn lemma_digit_value(n: nat)
    requires
        n < 10,
    ensures
        digit_value(digit(n)) == n,
        digit(n) != '+',
{
    assert(n == 0 || n == 1 || n == 2 || n == 3 || n == 4 || n == 5 || n == 6 || n == 7 || n == 8
        || n == 9);
}

pub proof fn lemma_decimal_digits(n: nat)
    ensures
        decimal(n).len() > 0,
        forall|k: int| 0 <= k < decimal(n).len() ==> digit_value(#[trigger] decimal(n)[k]) < 10,
        decimal(n)[0] != '+',
        digits_value(decimal(n)) == n,
    decreases n,
{
    lemma_digit_value(n % 10);
    reveal_with_fuel(digits_value, 2);
    if n >= 10 {
        lemma_decimal_digits(n / 10);
        assert(decimal(n).drop_last() =~= decimal(n / 10));
    } else {
        assert(decimal(n).drop_last() =~= Seq::<char>::empty());
    }
}

/// A number that is written in decimal reads back as itself.
pub proof fn law_decimal_round_trip(n: nat, max: nat)
    requires
        n <= max,
    ensures
        parse_decimal(decimal(n), max) == Some(n),
{
    lemma_decimal_digits(n);
}

/// The digits of a number follow its places: ten times a number and a digit
/// more is the number with that digit behind it.
pub proof fn law_decimal_places(n: nat, d: nat)
    requires
        d < 10,
    ensures
        n > 0 ==> decimal(10 * n + d).drop_last() == decimal(n),
        decimal(10 * n + d).last() as u32 == 0x30 + d,
        n == 0 ==> decimal(10 * n + d).len() == 1,
{
    assert(d == 0 || d == 1 || d == 2 || d == 3 || d == 4 || d == 5 || d == 6 || d == 7 || d == 8
        || d == 9);
    if n > 0 {
        assert((10 * n + d) / 10 == n);
        assert((10 * n + d) % 10 == d);
        assert(decimal(10 * n + d).drop_last() =~= decimal(n));
    }
}

/// A number is read only where it is not too large and every character but a
/// plus sign in front is a digit; zeros in front do not count.
pub proof fn law_numbers_are_read(text: Seq<char>, n: nat, max: nat)
    ensures
        n > max ==> parse_decimal(decimal(n), max) is None,
        parse_decimal(text, max) is Some ==> text.len() > 0 && text.last() != '+' && (forall|k: int|
            0 <= k < text.len() ==> '0' <= #[trigger] text[k] <= '9' || (k == 0 && text[k] == '+')),
        parse_decimal(text, max) is Some ==> parse_decimal(text, max)->0 <= max,
        text.len() > 0 && text[0] != '+' ==> parse_decimal(seq!['+'] + text, max) == parse_decimal(
            text,
            max,
        ),
        text.len() > 0 && text[0] != '+' ==> parse_decimal(seq!['0'] + text, max) == parse_decimal(
            text,
            max,
        ),
{
    lemma_decimal_digits(n);
    assert(unsigned(decimal(n)) == decimal(n));
    if parse_decimal(text, max) is Some {
        let digits = unsigned(text);
        assert forall|k: int| 0 <= k < text.len() implies '0' <= #[trigger] text[k] <= '9' || (k
            == 0 && text[k] == '+') by {
            if text[0] == '+' {
                if k > 0 {
                    assert(digit_value(digits[k - 1]) < 10);
                }
            } else {
                assert(digit_value(digits[k]) < 10);
            }
        }
        assert(text.last() == digits.last());
        assert(digit_value(digits[digits.len() - 1]) < 10);
    }
    if text.len() > 0 && text[0] != '+' {
        assert((seq!['+'] + text).skip(1) =~= text);
        let longer = seq!['0'] + text;
        assert(unsigned(longer) == longer && unsigned(text) == text);
        lemma_zero_in_front(text);
        assert(longer[0] == '0');
        if forall|k: int| 0 <= k < text.len() ==> digit_value(text[k]) < 10 {
            assert forall|k: int| 0 <= k < longer.len() implies digit_value(longer[k]) < 10 by {
                if k > 0 {
                    assert(longer[k] == text[k - 1]);
                }
            }
        }
        if forall|k: int| 0 <= k < longer.len() ==> digit_value(longer[k]) < 10 {
            assert forall|k: int| 0 <= k < text.len() implies digit_value(text[k]) < 10 by {
                assert(longer[k + 1] == text[k]);
            }
        }
    }
}

proof fn lemma_zero_in_front(digits: Seq<char>)
    ensures
        digits_value(seq!['0'] + digits) == digits_value(digits),
    decreases digits.len(),
{
    let longer = seq!['0'] + digits;
    if digits.len() == 0 {
        assert(longer.drop_last() =~= Seq::<char>::empty());
        reveal_with_fuel(digits_value, 2);
        assert(longer.last() == '0');
    } else {
        lemma_zero_in_front(digits.drop_last());
        assert(longer.drop_last() =~= seq!['0'] + digits.drop_last());
        assert(longer.last() == digits.last());
    }
}

// ---------------------------------------------------------------------------
// Order
// ---------------------------------------------------------------------------
/// Whether `a` comes before `b` in the order of their code points, which is
/// the order of their encoded bytes.
pub open spec fn precedes(a: Seq<char>, b: Seq<char>) -> bool
    decreases a.len(),
{
    if b.len() == 0 {
        false
    } else if a.len() == 0 {
        true
    } else if a[0] != b[0] {
        a[0] < b[0]
    } else {
        precedes(a.skip(1), b.skip(1))
    }
}

/// Where two strings stand to each other.
#[derive(Clone, Copy, Debug, PartialEq, Eq, Structural)]
pub enum Side {
    Before,
    Same,
    After,
}

pub proof fn lemma_precedes_total(a: Seq<char>, b: Seq<char>)
    ensures
        a == b || precedes(a, b) || precedes(b, a),
        !(precedes(a, b) && precedes(b, a)),
        a == b ==> !precedes(a, b),
    decreases a.len(),
{
    if a.len() == 0 || b.len() == 0 {
        if a.len() == b.len() {
            assert(a =~= b);
        }
    } else {
        lemma_precedes_total(a.skip(1), b.skip(1));
        if a[0] == b[0] && a.skip(1) == b.skip(1) {
            assert(a =~= seq![a[0]] + a.skip(1));
            assert(b =~= seq![b[0]] + b.skip(1));
            assert(a == b);
        }
    }
}

pub proof fn lemma_precedes_transitive(a: Seq<char>, b: Seq<char>, c: Seq<char>)
    requires
        precedes(a, b),
        precedes(b, c),
    ensures
        precedes(a, c),
    decreases a.len(),
{
    if a.len() > 0 && a[0] == b[0] && b[0] == c[0] {
        lemma_precedes_transitive(a.skip(1), b.skip(1), c.skip(1));
    }
}

/// The order of two strings.
pub fn compare_texts(a: &str, b: &str) -> (side: Side)
    ensures
        side == Side::Same <==> a@ == b@,
        side == Side::Before <==> precedes(a@, b@),
        side == Side::After <==> precedes(b@, a@),
{
    let left = chars_of(a);
    let right = chars_of(b);
    proof {
        lemma_precedes_total(a@, b@);
        assert(left@.skip(0) =~= a@);
        assert(right@.skip(0) =~= b@);
    }
    let mut i: usize = 0;
    while i < left.len() && i < right.len()
        invariant
            left@ == a@,
            right@ == b@,
            i <= left.len(),
            i <= right.len(),
            forall|k: int| 0 <= k < i ==> left@[k] == right@[k],
            precedes(a@, b@) == precedes(left@.skip(i as int), right@.skip(i as int)),
            precedes(b@, a@) == precedes(right@.skip(i as int), left@.skip(i as int)),
        decreases left.len() - i,
    {
        proof {
            assert(left@.skip(i as int).skip(1) =~= left@.skip(i + 1));
            assert(right@.skip(i as int).skip(1) =~= right@.skip(i + 1));
            lemma_precedes_total(a@, b@);
        }
        let x: char = left[i];
        let y: char = right[i];
        if x < y {
            return Side::Before;
        }
        if y < x {
            return Side::After;
        }
        i += 1;
    }
    proof {
        lemma_precedes_total(a@, b@);
    }
    if i < right.len() {
        Side::Before
    } else if i < left.len() {
        Side::After
    } else {
        assert(a@ =~= b@);
        Side::Same
    }
}

// ---------------------------------------------------------------------------
// What holds of every text
// ---------------------------------------------------------------------------
/// Whether all characters are white space.
pub open spec fn blank(text: Seq<char>) -> bool {
    forall|i: int| 0 <= i < text.len() ==> whitespace(#[trigger] text[i])
}

proof fn lemma_trim_start_parts(text: Seq<char>) -> (front: Seq<char>)
    ensures
        text == front + trim_start(text),
        blank(front),
        trim_start(text).len() > 0 ==> !whitespace(trim_start(text)[0]),
    decreases text.len(),
{
    if text.len() > 0 && whitespace(text[0]) {
        let front = lemma_trim_start_parts(text.skip(1));
        let whole = seq![text[0]] + front;
        let rest = trim_start(text);
        assert(rest == trim_start(text.skip(1)));
        assert(text =~= seq![text[0]] + text.skip(1));
        assert(seq![text[0]] + (front + rest) =~= whole + rest);
        assert forall|i: int| 0 <= i < whole.len() implies whitespace(#[trigger] whole[i]) by {
            if i > 0 {
                assert(whole[i] == front[i - 1]);
            }
        }
        whole
    } else {
        assert(text =~= Seq::<char>::empty() + text);
        Seq::empty()
    }
}

proof fn lemma_trim_end_parts(text: Seq<char>) -> (back: Seq<char>)
    ensures
        text == trim_end(text) + back,
        blank(back),
        trim_end(text).len() > 0 ==> !whitespace(trim_end(text).last()),
        trim_end(text).len() > 0 ==> trim_end(text)[0] == text[0],
    decreases text.len(),
{
    if text.len() > 0 && whitespace(text.last()) {
        let back = lemma_trim_end_parts(text.drop_last());
        let whole = back.push(text.last());
        let rest = trim_end(text);
        assert(rest == trim_end(text.drop_last()));
        assert(text =~= text.drop_last().push(text.last()));
        assert((rest + back).push(text.last()) =~= rest + whole);
        whole
    } else {
        assert(text =~= text + Seq::<char>::empty());
        Seq::empty()
    }
}

/// Trimming takes white space off both ends of a text and nothing else: what
/// is left neither begins nor ends with white space.
pub proof fn law_trimming_takes_white_space_only(text: Seq<char>)
    ensures
        exists|front: Seq<char>, back: Seq<char>|
            #![trigger blank(front), blank(back)]
            blank(front) && blank(back) && text == front + trim(text) + back,
        trim(text).len() > 0 ==> !whitespace(trim(text)[0]) && !whitespace(trim(text).last()),
{
    let front = lemma_trim_start_parts(text);
    let back = lemma_trim_end_parts(trim_start(text));
    assert(blank(front) && blank(back));
    assert(text =~= front + trim(text) + back);
}

/// The white space among the first characters is that of plain text: the
/// space, the tabulators, the feeds and the carriage return.
pub proof fn law_plain_white_space(c: char)
    requires
        (c as u32) < 0x80,
    ensures
        whitespace(c) <==> c == ' ' || c == '\t' || c == '\n' || c as u32 == 0xb || c as u32 == 0xc
            || c == '\r',
{
}

/// A line up to its line feed is the first line of a text, and what follows
/// has the other lines; a carriage return before the feed is not part of it.
pub proof fn law_lines_end_at_line_feeds(line: Seq<char>, rest: Seq<char>)
    requires
        forall|i: int| 0 <= i < line.len() ==> #[trigger] line[i] != '\n',
    ensures
        lines(line + seq!['\n'] + rest) == seq![
            if line.len() > 0 && line.last() == '\r' {
                line.drop_last()
            } else {
                line
            },
        ] + lines(rest),
        line.len() > 0 ==> lines(line) == seq![line],
        lines(Seq::empty()).len() == 0,
{
    let nothing = Seq::<char>::empty();
    lemma_split_append(nothing, line, '\n');
    assert(split_on(nothing, '\n') == seq![nothing]);
    assert(nothing + line =~= line);
    assert(split_on(line, '\n') =~= seq![line]);
    lemma_split_join(line, rest, '\n');
    lemma_split_nonempty(rest, |c: char| c == '\n');
    let after = split_on(rest, '\n');
    let pieces = split_on(line + seq!['\n'] + rest, '\n');
    assert(pieces =~= seq![line] + after);
    assert(pieces.last() == after.last());
    assert(pieces.drop_last() =~= seq![line] + after.drop_last());
    assert(lines(line + seq!['\n'] + rest) =~= seq![strip_return(line)] + lines(rest));
    if line.len() > 0 {
        assert(lines(line) =~= seq![line]);
    }
    assert(lines(nothing) =~= Seq::<Seq<char>>::empty());
}

/// Of two texts that differ the one with the smaller character at the first
/// difference comes first, and a text comes before its continuations.
pub proof fn law_first_difference_decides(
    common: Seq<char>,
    x: char,
    y: char,
    a: Seq<char>,
    b: Seq<char>,
)
    requires
        x < y,
    ensures
        precedes(common + seq![x] + a, common + seq![y] + b),
        !precedes(common + seq![y] + b, common + seq![x] + a),
        precedes(common, common + seq![x] + a),
        !precedes(common, common),
    decreases common.len(),
{
    if common.len() > 0 {
        let shorter = common.skip(1);
        law_first_difference_decides(shorter, x, y, a, b);
        assert((common + seq![x] + a).skip(1) =~= shorter + seq![x] + a);
        assert((common + seq![y] + b).skip(1) =~= shorter + seq![y] + b);
    }
}

proof fn lemma_split_apart(a: Seq<char>, b: Seq<char>, c: char, separates: spec_fn(char) -> bool)
    requires
        separates(c),
    ensures
        split_by(a + seq![c] + b, separates) == split_by(a, separates) + split_by(b, separates),
    decreases b.len(),
{
    let whole = a + seq![c] + b;
    if b.len() == 0 {
        assert(whole.drop_last() =~= a);
        assert(split_by(whole, separates) =~= split_by(a, separates) + split_by(b, separates));
    } else {
        lemma_split_apart(a, b.drop_last(), c, separates);
        lemma_split_nonempty(b.drop_last(), separates);
        assert(whole.drop_last() =~= a + seq![c] + b.drop_last());
        assert(whole.last() == b.last());
        assert(split_by(whole, separates) =~= split_by(a, separates) + split_by(b, separates));
    }
}

proof fn lemma_split_whole(word: Seq<char>, separates: spec_fn(char) -> bool)
    requires
        forall|i: int| 0 <= i < word.len() ==> !separates(#[trigger] word[i]),
    ensures
        split_by(word, separates) == seq![word],
    decreases word.len(),
{
    if word.len() > 0 {
        let shorter = word.drop_last();
        assert forall|i: int| 0 <= i < shorter.len() implies !separates(#[trigger] shorter[i]) by {
            assert(shorter[i] == word[i]);
        }
        lemma_split_whole(shorter, separates);
        assert(!separates(word[word.len() - 1]));
        assert(shorter.push(word.last()) =~= word);
        assert(split_by(word, separates) =~= seq![word]);
    } else {
        assert(word =~= Seq::<char>::empty());
    }
}

/// Words are what stands between white space: the words of two texts with
/// white space between them are the words of each, and a text without white
/// space is one word unless it is empty.
pub proof fn law_words_stand_between_white_space(
    a: Seq<char>,
    b: Seq<char>,
    space: char,
    word: Seq<char>,
)
    requires
        whitespace(space),
        forall|i: int| 0 <= i < word.len() ==> !whitespace(#[trigger] word[i]),
    ensures
        words(a + seq![space] + b) == words(a) + words(b),
        words(word) == if word.len() > 0 {
            seq![word]
        } else {
            Seq::empty()
        },
{
    let separates = |c: char| whitespace(c);
    let full = |word: Seq<char>| word.len() > 0;
    lemma_split_apart(a, b, space, separates);
    Seq::filter_distributes_over_add(split_by(a, separates), split_by(b, separates), full);
    lemma_split_whole(word, separates);
    reveal(Seq::filter);
    assert(seq![word].drop_last() =~= Seq::<Seq<char>>::empty());
    assert(Seq::<Seq<char>>::empty().filter(full) =~= Seq::<Seq<char>>::empty());
    assert(seq![word].last() == word);
    assert(words(word) =~= if word.len() > 0 {
        seq![word]
    } else {
        Seq::empty()
    });
}

} // verus!
