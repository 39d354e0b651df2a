//! Text: the operations on strings that the rest of the library is written with.
//!
//! A string is a sequence of characters. Everything here is stated over `Seq<char>`.
use vstd::prelude::*;
use vstd::string::*;

verus! {

/// `String::push`: the character is put behind the others.
pub assume_specification[ String::push ](s: &mut String, c: char)
    ensures
        final(s)@ == old(s)@.push(c),
;

/// `char::is_whitespace`: whether a character has the Unicode property `White_Space`, which
/// the characters listed in `whitespace` have and no others.
pub assume_specification[ char::is_whitespace ](c: char) -> (res: bool)
    ensures
        res == whitespace(c),
;

/// The characters with the Unicode property `White_Space`.
pub open spec fn whitespace(c: char) -> bool {
    let n = c as int;
    ||| 0x09 <= n <= 0x0D
    ||| n == 0x20
    ||| n == 0x85
    ||| n == 0xA0
    ||| n == 0x1680
    ||| 0x2000 <= n <= 0x200A
    ||| n == 0x2028
    ||| n == 0x2029
    ||| n == 0x202F
    ||| n == 0x205F
    ||| n == 0x3000
}

/// What `char::to_uppercase` turns a character into.
pub uninterp spec fn upper_case(c: char) -> Seq<char>;

/// `char::to_uppercase`: a character's uppercase mapping. A lower-case ASCII letter has the
/// upper-case letter for it; any other ASCII character maps to itself.
#[verifier::external_body]
fn char_to_uppercase(c: char) -> (res: String)
    ensures
        res@ == upper_case(c),
        'a' as int <= c as int <= 'z' as int ==> res@ == seq![(c as int - 32) as char],
        (c as int) < 128 && !('a' as int <= c as int <= 'z' as int) ==> res@ == seq![c],
{
    c.to_uppercase().to_string()
}

/// The characters of a string, one by one.
pub fn chars_of(s: &str) -> (res: Vec<char>)
    ensures
        res@ == s@,
{
    let mut out: Vec<char> = Vec::new();
    for c in it: s.chars()
        invariant
            it.seq() == s@,
            out@ == it.seq().take(it.index() as int),
    {
        out.push(c);
        assert(out@ =~= it.seq().take(it.index() + 1));
    }
    assert(out@ =~= s@);
    out
}

/// The string with the characters `chars[from..to]`.
pub fn string_of(chars: &Vec<char>, from: usize, to: usize) -> (res: String)
    requires
        from <= to <= chars@.len(),
    ensures
        res@ == chars@.subrange(from as int, to as int),
{
    let mut out = String::new();
    let mut i: usize = from;
    while i < to
        invariant
            from <= i <= to <= chars@.len(),
            out@ == chars@.subrange(from as int, i as int),
        decreases to - i,
    {
        out.push(chars[i]);
        i = i + 1;
        assert(out@ =~= chars@.subrange(from as int, i as int));
    }
    out
}

/// Whether two strings have the same characters.
pub fn same_text(a: &str, b: &str) -> (res: bool)
    ensures
        res == (a@ == b@),
{
    a.to_owned() == b.to_owned()
}

/// Whether `s` starts with `prefix`.
pub fn starts_with(s: &str, prefix: &str) -> (res: bool)
    ensures
        res == prefix@.is_prefix_of(s@),
{
    let n = prefix.unicode_len();
    if s.unicode_len() < n {
        return false;
    }
    let head = s.substring_char(0, n);
    assert(prefix@.is_prefix_of(s@) == (head@ == prefix@)) by {
        if head@ == prefix@ {
            assert(prefix@ =~= s@.subrange(0, prefix@.len() as int));
        }
    }
    same_text(head, prefix)
}

/// `s` without the whitespace that it starts with.
pub open spec fn trimmed_start(s: Seq<char>) -> Seq<char>
    decreases s.len(),
{
    if s.len() > 0 && whitespace(s[0]) {
        trimmed_start(s.drop_first())
    } else {
        s
    }
}

/// `s` without the whitespace that it ends with.
pub open spec fn trimmed_end(s: Seq<char>) -> Seq<char>
    decreases s.len(),
{
    if s.len() > 0 && whitespace(s.last()) {
        trimmed_end(s.drop_last())
    } else {
        s
    }
}

/// `s` without the whitespace around it.
pub open spec fn trimmed(s: Seq<char>) -> Seq<char> {
    trimmed_end(trimmed_start(s))
}

/// Takes away the whitespace around `s`.
pub fn trim(s: &str) -> (res: String)
    ensures
        res@ == trimmed(s@),
{
    let chars = chars_of(s);
    let mut from: usize = 0;
    let mut to: usize = chars.len();
    assert(chars@.subrange(0, chars@.len() as int) =~= chars@);
    while from < to && chars[from].is_whitespace()
        invariant
            from <= to == chars@.len(),
            trimmed_start(chars@) == trimmed_start(chars@.subrange(from as int, to as int)),
        decreases to - from,
    {
        assert(chars@.subrange(from as int, to as int).drop_first() =~= chars@.subrange(
            from + 1,
            to as int,
        ));
        from = from + 1;
    }
    assert(trimmed_start(chars@) == chars@.subrange(from as int, to as int));
    while from < to && chars[to - 1].is_whitespace()
        invariant
            from <= to <= chars@.len(),
            trimmed(chars@) == trimmed_end(chars@.subrange(from as int, to as int)),
        decreases to,
    {
        assert(chars@.subrange(from as int, to as int).drop_last() =~= chars@.subrange(
            from as int,
            to - 1,
        ));
        to = to - 1;
    }
    string_of(&chars, from, to)
}

/// The parts of `s` between the occurrences of `separator`; at least one part.
pub open spec fn split_parts(s: Seq<char>, separator: char) -> Seq<Seq<char>>
    decreases s.len(),
{
    if s.len() == 0 {
        seq![Seq::<char>::empty()]
    } else {
        let before = split_parts(s.drop_last(), separator);
        if s.last() == separator {
            before.push(Seq::<char>::empty())
        } else {
            before.drop_last().push(before.last().push(s.last()))
        }
    }
}

/// Splits `s` at every `separator`.
pub fn split(s: &str, separator: char) -> (res: Vec<String>)
    ensures
        res.deep_view() == split_parts(s@, separator),
{
    let chars = chars_of(s);
    let mut done: Vec<String> = Vec::new();
    let mut part = String::new();
    let mut i: usize = 0;
    assert(done.deep_view().push(part@) =~= seq![Seq::<char>::empty()]);
    while i < chars.len()
        invariant
            i <= chars@.len(),
            done.deep_view().push(part@) == split_parts(chars@.take(i as int), separator),
        decreases chars@.len() - i,
    {
        let c = chars[i];
        let ghost before = split_parts(chars@.take(i as int), separator);
        assert(chars@.take(i + 1).drop_last() =~= chars@.take(i as int));
        assert(before.drop_last() =~= done.deep_view());
        if c == separator {
            let ghost earlier = done.deep_view();
            let ghost ended = part@;
            done.push(part);
            part = String::new();
            assert(done.deep_view() =~= earlier.push(ended));
        } else {
            part.push(c);
        }
        i = i + 1;
    }
    assert(chars@.take(i as int) =~= s@);
    let ghost earlier = done.deep_view();
    let ghost ended = part@;
    done.push(part);
    assert(done.deep_view() =~= earlier.push(ended));
    done
}

/// The words of `s`: the longest stretches without whitespace.
pub open spec fn words_of(s: Seq<char>) -> Seq<Seq<char>>
    decreases s.len(),
{
    if s.len() == 0 {
        seq![]
    } else {
        let before = words_of(s.drop_last());
        if whitespace(s.last()) {
            before
        } else if s.len() == 1 || whitespace(s[s.len() - 2]) {
            before.push(seq![s.last()])
        } else {
            before.drop_last().push(before.last().push(s.last()))
        }
    }
}

/// Splits `s` at whitespace, without empty parts.
pub fn split_whitespace(s: &str) -> (res: Vec<String>)
    ensures
        res.deep_view() == words_of(s@),
{
    let chars = chars_of(s);
    let mut done: Vec<String> = Vec::new();
    let mut word = String::new();
    let mut i: usize = 0;
    assert(done.deep_view() =~= seq![]);
    while i < chars.len()
        invariant
            i <= chars@.len(),
            word@.len() > 0 <==> i > 0 && !whitespace(chars@[i - 1]),
            words_of(chars@.take(i as int)) == if word@.len() > 0 {
                done.deep_view().push(word@)
            } else {
                done.deep_view()
            },
        decreases chars@.len() - i,
    {
        let c = chars[i];
        let ghost before = words_of(chars@.take(i as int));
        assert(chars@.take(i + 1).drop_last() =~= chars@.take(i as int));
        let ghost earlier = done.deep_view();
        let ghost so_far = word@;
        if c.is_whitespace() {
            if !word.as_str().is_empty() {
                done.push(word);
                word = String::new();
                assert(done.deep_view() =~= earlier.push(so_far));
            }
        } else {
            word.push(c);
            proof {
                if so_far.len() > 0 {
                    assert(before.drop_last() =~= earlier);
                    assert(before.last() == so_far);
                } else {
                    assert(word@ =~= seq![c]);
                }
            }
        }
        i = i + 1;
    }
    assert(chars@.take(i as int) =~= s@);
    if !word.as_str().is_empty() {
        let ghost earlier = done.deep_view();
        let ghost so_far = word@;
        done.push(word);
        assert(done.deep_view() =~= earlier.push(so_far));
    }
    done
}

/// Where `c` stands last in `s`.
pub open spec fn last_index(s: Seq<char>, c: char) -> Option<int>
    decreases s.len(),
{
    if s.len() == 0 {
        None
    } else if s.last() == c {
        Some(s.len() - 1)
    } else {
        last_index(s.drop_last(), c)
    }
}

/// Finds the last place of `c`.
pub fn find_last(chars: &Vec<char>, c: char) -> (res: Option<usize>)
    ensures
        match res {
            Some(i) => last_index(chars@, c) == Some(i as int) && i < chars@.len(),
            None => last_index(chars@, c) is None,
        },
{
    let mut n: usize = chars.len();
    assert(chars@.take(n as int) =~= chars@);
    while n > 0
        invariant
            n <= chars@.len(),
            last_index(chars@, c) == last_index(chars@.take(n as int), c),
        decreases n,
    {
        assert(chars@.take(n as int).drop_last() =~= chars@.take(n - 1));
        if chars[n - 1] == c {
            return Some(n - 1);
        }
        n = n - 1;
    }
    None
}

/// The digit for `n`, which is below ten.
pub open spec fn digit(n: nat) -> char {
    (48 + n) as char
}

/// `n` in decimal, without leading zeros.
pub open spec fn decimal(n: nat) -> Seq<char>
    decreases n,
{
    if n < 10 {
        seq![digit(n)]
    } else {
        decimal(n / 10).push(digit(n % 10))
    }
}

/// Writes `n` in decimal.
pub fn decimal_text(n: u64) -> (res: String)
    ensures
        res@ == decimal(n as nat),
    decreases n,
{
    let d: u8 = (n % 10) as u8;
    let c: char = (48u8 + d) as char;
    if n < 10 {
        let mut out = String::new();
        out.push(c);
        assert(out@ =~= seq![digit(n as nat)]);
        out
    } else {
        let mut out = decimal_text(n / 10);
        out.push(c);
        out
    }
}

/// `s` with its first character in upper case.
pub open spec fn capitalized(s: Seq<char>) -> Seq<char> {
    if s.len() == 0 {
        s
    } else {
        upper_case(s[0]) + s.drop_first()
    }
}

/// The upper-case letter for a lower-case ASCII letter; any other character is itself.
pub open spec fn ascii_upper(c: char) -> char {
    if 'a' as int <= c as int <= 'z' as int {
        (c as int - 32) as char
    } else {
        c
    }
}

/// Whether `s` is empty or starts with an ASCII character.
pub open spec fn starts_in_ascii(s: Seq<char>) -> bool {
    s.len() > 0 ==> (s[0] as int) < 128
}

/// `s` with its first character in upper case, where that is a lower-case ASCII letter.
pub open spec fn ascii_capitalized(s: Seq<char>) -> Seq<char> {
    if s.len() == 0 {
        s
    } else {
        seq![ascii_upper(s[0])] + s.drop_first()
    }
}

/// Puts the first character of `s` in upper case. Of characters outside of ASCII no more is
/// said than that the upper case is the one of the standard library.
pub fn capitalize(s: &str) -> (res: String)
    ensures
        res@ == capitalized(s@),
        starts_in_ascii(s@) ==> res@ == ascii_capitalized(s@),
{
    let n = s.unicode_len();
    if n == 0 {
        return String::new();
    }
    let mut out = char_to_uppercase(s.get_char(0));
    assert((s@[0] as int) < 128 ==> out@ == seq![ascii_upper(s@[0])]);
    assert(s@.subrange(1, n as int) =~= s@.drop_first());
    out.append(s.substring_char(1, n));
    out
}

/// Capitalizing a text a second time changes nothing, and never changes what is behind the
/// first character.
pub proof fn capitalizing_twice_changes_nothing(s: Seq<char>)
    requires
        starts_in_ascii(s),
    ensures
        starts_in_ascii(ascii_capitalized(s)),
        ascii_capitalized(ascii_capitalized(s)) == ascii_capitalized(s),
        ascii_capitalized(s).len() == s.len(),
        forall|i: int| 1 <= i < s.len() ==> ascii_capitalized(s)[i] == s[i],
{
    if s.len() > 0 {
        let once = ascii_capitalized(s);
        assert(once.drop_first() =~= s.drop_first());
        assert(ascii_upper(ascii_upper(s[0])) == ascii_upper(s[0]));
    }
}

/// The first `n` characters of `s`, or all of it where it has fewer.
pub open spec fn first_chars(s: Seq<char>, n: nat) -> Seq<char> {
    if s.len() <= n {
        s
    } else {
        s.take(n as int)
    }
}

/// Takes the first `n` characters of `s`.
pub fn take_chars(s: &str, n: usize) -> (res: String)
    ensures
        res@ == first_chars(s@, n as nat),
{
    if s.unicode_len() <= n {
        s.to_owned()
    } else {
        s.substring_char(0, n).to_owned()
    }
}

/// The strings one behind the other, with `separator` between them.
pub open spec fn joined(parts: Seq<Seq<char>>, separator: Seq<char>) -> Seq<char>
    decreases parts.len(),
{
    if parts.len() == 0 {
        seq![]
    } else if parts.len() == 1 {
        parts[0]
    } else {
        joined(parts.drop_last(), separator) + separator + parts.last()
    }
}

/// Joins strings with a separator.
pub fn join(parts: &Vec<String>, separator: &str) -> (res: String)
    ensures
        res@ == joined(parts.deep_view(), separator@),
{
    let mut out = String::new();
    let mut i: usize = 0;
    while i < parts.len()
        invariant
            i <= parts@.len(),
            out@ == joined(parts.deep_view().take(i as int), separator@),
        decreases parts@.len() - i,
    {
        assert(parts.deep_view().take(i + 1).drop_last() =~= parts.deep_view().take(i as int));
        if i > 0 {
            out.append(separator);
        }
        out.append(parts[i].as_str());
        i = i + 1;
        if i == 1 {
            assert(out@ =~= parts@[0]@);
        }
    }
    assert(parts.deep_view().take(i as int) =~= parts.deep_view());
    out
}

/// Whether a string is among others.
pub fn contains_text(items: &Vec<String>, item: &str) -> (res: bool)
    ensures
        res == items.deep_view().contains(item@),
{
    let mut i: usize = 0;
    while i < items.len()
        invariant
            i <= items@.len(),
            forall|j: int| 0 <= j < i ==> #[trigger] items.deep_view()[j] != item@,
        decreases items@.len() - i,
    {
        if same_text(items[i].as_str(), item) {
            assert(items.deep_view()[i as int] == item@);
            return true;
        }
        i = i + 1;
    }
    false
}

/// Copies strings.
pub fn copy_texts(items: &Vec<String>) -> (res: Vec<String>)
    ensures
        res.deep_view() == items.deep_view(),
{
    let mut out: Vec<String> = Vec::new();
    let mut i: usize = 0;
    while i < items.len()
        invariant
            i <= items@.len(),
            out.deep_view() == items.deep_view().take(i as int),
        decreases items@.len() - i,
    {
        let ghost before = out.deep_view();
        out.push(items[i].clone());
        assert(out.deep_view() =~= before.push(items@[i as int]@));
        i = i + 1;
        assert(out.deep_view() =~= items.deep_view().take(i as int));
    }
    assert(items.deep_view().take(i as int) =~= items.deep_view());
    out
}

/// Puts two strings one behind the other.
pub fn text2(a: &str, b: &str) -> (res: String)
    ensures
        res@ == a@ + b@,
{
    let mut out = a.to_owned();
    out.append(b);
    out
}

/// Puts three strings one behind the other.
pub fn text3(a: &str, b: &str, c: &str) -> (res: String)
    ensures
        res@ == a@ + b@ + c@,
{
    let mut out = text2(a, b);
    out.append(c);
    out
}

/// Puts five strings one behind the other.
pub fn text5(a: &str, b: &str, c: &str, d: &str, e: &str) -> (res: String)
    ensures
        res@ == a@ + b@ + c@ + d@ + e@,
{
    let mut out = text3(a, b, c);
    out.append(d);
    out.append(e);
    out
}

/// The lower-case hexadecimal digit for four bits.
pub open spec fn hex_digit(n: int) -> char {
    if n < 10 {
        (48 + n) as char
    } else {
        (87 + n) as char
    }
}

/// A byte as two lower-case hexadecimal digits.
pub open spec fn hex_pair(n: u8) -> Seq<char> {
    seq![hex_digit(n as int / 16), hex_digit(n as int % 16)]
}

fn hex_char(n: u8) -> (res: char)
    requires
        n < 16,
    ensures
        res == hex_digit(n as int),
{
    if n < 10 {
        (48u8 + n) as char
    } else {
        (87u8 + n) as char
    }
}

/// Writes a byte as two lower-case hexadecimal digits.
pub fn hex_byte(n: u8) -> (res: String)
    ensures
        res@ == hex_pair(n),
{
    let mut out = String::new();
    out.push(hex_char(n / 16));
    out.push(hex_char(n % 16));
    assert(out@ =~= hex_pair(n));
    out
}

proof fn lemma_trimmed_start(padding: Seq<char>, s: Seq<char>)
    requires
        forall|i: int| 0 <= i < padding.len() ==> whitespace(#[trigger] padding[i]),
    ensures
        trimmed_start(padding + s) == trimmed_start(s),
    decreases padding.len(),
{
    if padding.len() == 0 {
        assert(padding + s =~= s);
    } else {
        let rest = padding.drop_first();
        assert((padding + s)[0] == padding[0]);
        assert((padding + s).drop_first() =~= rest + s);
        assert forall|i: int| 0 <= i < rest.len() implies whitespace(#[trigger] rest[i]) by {
            assert(rest[i] == padding[i + 1]);
        }
        lemma_trimmed_start(rest, s);
    }
}

proof fn lemma_trimmed_end(s: Seq<char>, padding: Seq<char>)
    requires
        forall|i: int| 0 <= i < padding.len() ==> whitespace(#[trigger] padding[i]),
    ensures
        trimmed_end(s + padding) == trimmed_end(s),
    decreases padding.len(),
{
    if padding.len() == 0 {
        assert(s + padding =~= s);
    } else {
        let rest = padding.drop_last();
        assert((s + padding).last() == padding.last());
        assert((s + padding).drop_last() =~= s + rest);
        assert forall|i: int| 0 <= i < rest.len() implies whitespace(#[trigger] rest[i]) by {
            assert(rest[i] == padding[i]);
        }
        lemma_trimmed_end(s, rest);
    }
}

/// A text that neither starts nor ends with whitespace is what is left of it with any amount of
/// whitespace before and behind it, whatever stands inside it.
pub proof fn padding_is_taken_away(before: Seq<char>, text: Seq<char>, behind: Seq<char>)
    requires
        forall|i: int| 0 <= i < before.len() ==> whitespace(#[trigger] before[i]),
        forall|i: int| 0 <= i < behind.len() ==> whitespace(#[trigger] behind[i]),
        text.len() > 0 ==> !whitespace(text[0]) && !whitespace(text.last()),
    ensures
        trimmed(before + text + behind) == text,
{
    assert(before + text + behind =~= before + (text + behind));
    lemma_trimmed_start(before, text + behind);
    if text.len() > 0 {
        assert((text + behind)[0] == text[0]);
        lemma_trimmed_end(text, behind);
    } else {
        assert(text + behind =~= behind + seq![]);
        lemma_trimmed_start(behind, seq![]);
    }
}

/// What is trimmed is the text but for whitespace at its two ends, and neither starts nor ends
/// with whitespace.
pub proof fn only_padding_is_taken_away(text: Seq<char>) -> (padding: (Seq<char>, Seq<char>))
    ensures
        text == padding.0 + trimmed(text) + padding.1,
        forall|i: int| 0 <= i < padding.0.len() ==> whitespace(#[trigger] padding.0[i]),
        forall|i: int| 0 <= i < padding.1.len() ==> whitespace(#[trigger] padding.1[i]),
        trimmed(text).len() > 0 ==> !whitespace(trimmed(text)[0]) && !whitespace(trimmed(text).last()),
{
    let before = lemma_start_padding(text);
    let rest = trimmed_start(text);
    let behind = lemma_end_padding(rest);
    assert(text =~= before + trimmed(text) + behind);
    if trimmed(text).len() > 0 {
        assert(rest[0] == trimmed(text)[0]);
    }
    (before, behind)
}

proof fn lemma_start_padding(text: Seq<char>) -> (padding: Seq<char>)
    ensures
        text == padding + trimmed_start(text),
        forall|i: int| 0 <= i < padding.len() ==> whitespace(#[trigger] padding[i]),
        trimmed_start(text).len() > 0 ==> !whitespace(trimmed_start(text)[0]),
    decreases text.len(),
{
    if text.len() > 0 && whitespace(text[0]) {
        let rest = lemma_start_padding(text.drop_first());
        let padding = seq![text[0]] + rest;
        let tail = text.drop_first();
        assert(text =~= seq![text[0]] + tail);
        assert(seq![text[0]] + (rest + trimmed_start(tail)) =~= padding + trimmed_start(tail));
        padding
    } else {
        assert(text =~= Seq::<char>::empty() + text);
        seq![]
    }
}

proof fn lemma_end_padding(text: Seq<char>) -> (padding: Seq<char>)
    ensures
        text == trimmed_end(text) + padding,
        forall|i: int| 0 <= i < padding.len() ==> whitespace(#[trigger] padding[i]),
        trimmed_end(text).len() > 0 ==> !whitespace(trimmed_end(text).last()),
    decreases text.len(),
{
    if text.len() > 0 && whitespace(text.last()) {
        let rest = lemma_end_padding(text.drop_last());
        let padding = rest.push(text.last());
        let head = text.drop_last();
        assert(text =~= head.push(text.last()));
        assert((trimmed_end(head) + rest).push(text.last()) =~= trimmed_end(head) + padding);
        padding
    } else {
        assert(text =~= text + Seq::<char>::empty());
        seq![]
    }
}

/// A word behind a text, with whitespace between them, is one more word. Whitespace behind a
/// text makes no word.
pub proof fn word_comes_behind(text: Seq<char>, gap: Seq<char>, word: Seq<char>)
    requires
        forall|i: int| 0 <= i < gap.len() ==> whitespace(#[trigger] gap[i]),
        forall|i: int| 0 <= i < word.len() ==> !whitespace(#[trigger] word[i]),
        text.len() > 0 && word.len() > 0 ==> gap.len() > 0,
    ensures
        words_of(text + gap) == words_of(text),
        word.len() > 0 ==> words_of(text + gap + word) == words_of(text).push(word),
    decreases gap.len() + word.len(),
{
    if word.len() > 0 {
        let rest = word.drop_last();
        assert forall|i: int| 0 <= i < rest.len() implies !whitespace(#[trigger] rest[i]) by {
            assert(rest[i] == word[i]);
        }
        word_comes_behind(text, gap, rest);
        let whole = text + gap + word;
        assert(whole.drop_last() =~= text + gap + rest);
        assert(whole.last() == word.last());
        if rest.len() == 0 {
            assert(text + gap + rest =~= text + gap);
            if whole.len() > 1 {
                assert(whole[whole.len() - 2] == gap.last());
            }
            assert(word =~= seq![word.last()]);
        } else {
            assert(whole[whole.len() - 2] == word[word.len() - 2]);
            let before = words_of(text).push(rest);
            assert(before.drop_last() =~= words_of(text));
            assert(rest.push(word.last()) =~= word);
        }
    } else if gap.len() > 0 {
        lemma_gap_makes_no_word(text, gap);
    } else {
        assert(text + gap =~= text);
    }
}

proof fn lemma_gap_makes_no_word(text: Seq<char>, gap: Seq<char>)
    requires
        forall|i: int| 0 <= i < gap.len() ==> whitespace(#[trigger] gap[i]),
    ensures
        words_of(text + gap) == words_of(text),
    decreases gap.len(),
{
    if gap.len() == 0 {
        assert(text + gap =~= text);
    } else {
        let rest = gap.drop_last();
        assert forall|i: int| 0 <= i < rest.len() implies whitespace(#[trigger] rest[i]) by {
            assert(rest[i] == gap[i]);
        }
        lemma_gap_makes_no_word(text, rest);
        assert((text + gap).drop_last() =~= text + rest);
        assert((text + gap).last() == gap.last());
    }
}

proof fn lemma_split_last(text: Seq<char>, separator: char, part: Seq<char>)
    requires
        forall|i: int| 0 <= i < part.len() ==> #[trigger] part[i] != separator,
    ensures
        split_parts(text, separator).len() > 0,
        split_parts(text + part, separator) == split_parts(text, separator).drop_last().push(
            split_parts(text, separator).last() + part,
        ),
    decreases text.len() + part.len(),
{
    if text.len() > 0 {
        lemma_split_last(text.drop_last(), separator, seq![]);
    }
    let parts = split_parts(text, separator);
    if part.len() == 0 {
        assert(text + part =~= text);
        assert(parts.last() + part =~= parts.last());
        assert(parts.drop_last().push(parts.last()) =~= parts);
    } else {
        let rest = part.drop_last();
        assert forall|i: int| 0 <= i < rest.len() implies #[trigger] rest[i] != separator by {
            assert(rest[i] == part[i]);
        }
        lemma_split_last(text, separator, rest);
        assert((text + part).drop_last() =~= text + rest);
        assert((text + part).last() == part.last());
        let before = split_parts(text + rest, separator);
        assert(before.drop_last() =~= parts.drop_last());
        assert((parts.last() + rest).push(part.last()) =~= parts.last() + part);
    }
}

/// A text without the separator is one part, and each separator with such a text behind it adds
/// that text as one more part.
pub proof fn split_undoes_joining(text: Seq<char>, separator: char, part: Seq<char>)
    requires
        forall|i: int| 0 <= i < part.len() ==> #[trigger] part[i] != separator,
    ensures
        split_parts(part, separator) == seq![part],
        split_parts(text.push(separator) + part, separator) == split_parts(text, separator).push(part),
{
    lemma_split_last(seq![], separator, part);
    assert(Seq::<char>::empty() + part =~= part);
    assert(split_parts(part, separator) =~= seq![part]);
    lemma_split_last(text.push(separator), separator, part);
    assert(text.push(separator).drop_last() =~= text);
    let parts = split_parts(text, separator);
    assert(parts.push(Seq::<char>::empty()).drop_last() =~= parts);
    assert(Seq::<char>::empty() + part =~= part);
}

/// A number in decimal is that of its tens with the digit of its ones behind it; below ten it is
/// the digit alone. The digits stand in their order from `0` on.
pub proof fn decimal_goes_by_tens(tens: nat, ones: nat)
    requires
        ones < 10,
    ensures
        decimal(ones) == seq![digit(ones)],
        tens > 0 ==> decimal(10 * tens + ones) == decimal(tens).push(digit(ones)),
        digit(ones) as int == '0' as int + ones,
{
    assert((10 * tens + ones) / 10 == tens);
    assert((10 * tens + ones) % 10 == ones);
}

/// The first characters of a text are how it starts: as many as are asked for, or all of them.
pub proof fn first_chars_start_text(s: Seq<char>, n: nat)
    ensures
        first_chars(s, n).is_prefix_of(s),
        first_chars(s, n).len() == if s.len() < n {
            s.len()
        } else {
            n
        },
{
}

/// Joined texts are the first one, and behind the others each time the separator and the next.
pub proof fn joining_puts_separators_between(parts: Seq<Seq<char>>, separator: Seq<char>, next: Seq<char>)
    ensures
        joined(seq![next], separator) == next,
        parts.len() > 0 ==> joined(parts.push(next), separator) == joined(parts, separator) + separator + next,
{
    assert(parts.push(next).drop_last() =~= parts);
}

/// Where a character stands last, it does, and nowhere behind it; there is no place where it does
/// not occur.
pub proof fn last_place_is_last(s: Seq<char>, c: char)
    ensures
        last_index(s, c) matches Some(i) ==> 0 <= i < s.len() && s[i] == c && forall|j: int|
            i < j < s.len() ==> #[trigger] s[j] != c,
        last_index(s, c) is None ==> forall|j: int| 0 <= j < s.len() ==> #[trigger] s[j] != c,
    decreases s.len(),
{
    if s.len() > 0 && s.last() != c {
        let rest = s.drop_last();
        last_place_is_last(rest, c);
        assert forall|j: int| 0 <= j < rest.len() implies #[trigger] s[j] == rest[j] by {
        }
    }
}

/// A byte in hexadecimal is two digits: the value of the first counts sixteen times.
pub proof fn hex_pair_stands_for_byte(n: u8)
    ensures
        hex_pair(n).len() == 2,
        exists|high: int, low: int|
            0 <= high < 16 && 0 <= low < 16 && n == 16 * high + low && hex_pair(n)[0] == #[trigger] hex_digit(high)
                && hex_pair(n)[1] == #[trigger] hex_digit(low),
{
    let high = n as int / 16;
    let low = n as int % 16;
    assert(hex_pair(n)[0] == hex_digit(high) && hex_pair(n)[1] == hex_digit(low));
}

/// The hexadecimal digits are `0` to `9` and then `a` to `f`.
pub proof fn hex_digits_in_order(n: int)
    requires
        0 <= n < 16,
    ensures
        n < 10 ==> hex_digit(n) as int == '0' as int + n,
        n >= 10 ==> hex_digit(n) as int == 'a' as int + (n - 10),
{
}

proof fn lemma_joined_extends(parts: Seq<Seq<char>>, separator: Seq<char>, more: Seq<char>)
    requires
        parts.len() > 0,
    ensures
        joined(parts.drop_last().push(parts.last() + more), separator) == joined(parts, separator) + more,
{
    let longer = parts.drop_last().push(parts.last() + more);
    assert(longer.drop_last() =~= parts.drop_last());
    assert(longer.last() == parts.last() + more);
    if parts.len() > 1 {
        let before = joined(parts.drop_last(), separator) + separator;
        assert(before + (parts.last() + more) =~= before + parts.last() + more);
    }
}

/// The parts of a text, joined with the separator, are the text again, and none of them has the
/// separator in it.
pub proof fn joining_undoes_split(text: Seq<char>, separator: char)
    ensures
        split_parts(text, separator).len() > 0,
        joined(split_parts(text, separator), seq![separator]) == text,
        forall|k: int|
            0 <= k < split_parts(text, separator).len() ==> !(#[trigger] split_parts(text, separator)[k]).contains(
                separator,
            ),
    decreases text.len(),
{
    let parts = split_parts(text, separator);
    if text.len() == 0 {
        assert(parts =~= seq![Seq::<char>::empty()]);
    } else {
        let rest = text.drop_last();
        joining_undoes_split(rest, separator);
        let before = split_parts(rest, separator);
        assert(rest.push(text.last()) =~= text);
        if text.last() == separator {
            assert(parts.drop_last() =~= before);
            assert(joined(before, seq![separator]) + seq![separator] + Seq::<char>::empty() =~= rest.push(separator));
        } else {
            let c = seq![text.last()];
            assert(before.last().push(text.last()) =~= before.last() + c);
            lemma_joined_extends(before, seq![separator], c);
            assert(rest + c =~= text);
        }
        assert forall|k: int| 0 <= k < parts.len() implies !(#[trigger] parts[k]).contains(separator) by {
            if k < before.len() {
                assert(!before[k].contains(separator));
            }
            if parts[k].contains(separator) {
                let i = choose|i: int| 0 <= i < parts[k].len() && parts[k][i] == separator;
                assert(before[k][i] == separator);
            }
        }
    }
}

/// The first letter of a word is raised where it is one from `a` to `z`; all else stays.
pub proof fn first_letter_is_raised(first: char, rest: Seq<char>)
    ensures
        'a' as int <= first as int <= 'z' as int ==> ascii_capitalized(seq![first] + rest) == seq![
            (first as int - ('a' as int - 'A' as int)) as char,
        ] + rest,
        !('a' as int <= first as int <= 'z' as int) ==> ascii_capitalized(seq![first] + rest) == seq![first] + rest,
        ascii_capitalized(seq![]).len() == 0,
{
    assert((seq![first] + rest).drop_first() =~= rest);
}

}
