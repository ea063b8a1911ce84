//! Text helpers: strings as sequences of characters.

use vstd::arithmetic::power::*;
use vstd::prelude::*;
use vstd::string::*;
use vstd::utf8::*;

verus! {

/// The views of a sequence of values.
pub open spec fn views<T: View>(items: Seq<T>) -> Seq<T::V> {
    Seq::new(items.len(), |i: int| items[i]@)
}

/// The view of a value that may be absent.
pub open spec fn option_view<T: View>(item: Option<T>) -> Option<T::V> {
    match item {
        Some(value) => Some(value@),
        None => None,
    }
}

/// `c` with an ASCII capital letter turned into its small form.
pub open spec fn ascii_lower(c: char) -> char {
    if 'A' <= c && c <= 'Z' {
        (c as int + 32) as char
    } else {
        c
    }
}

/// `s` with its ASCII capital letters turned into their small forms.
pub open spec fn ascii_folded(s: Seq<char>) -> Seq<char> {
    s.map_values(|c: char| ascii_lower(c))
}

/// The characters of `s`.
pub fn chars_of(s: &str) -> (chars: Vec<char>)
    ensures
        chars@ == s@,
{
    let mut chars: Vec<char> = Vec::new();
    for c in it: s.chars()
        invariant
            chars@ == it.seq().take(it.index() as int),
            it.seq() == s@,
    {
        chars.push(c);
    }
    chars
}

/// Specifies `String::push`: the character is appended.
pub assume_specification[ String::push ](s: &mut String, c: char)
    ensures
        final(s)@ == old(s)@.push(c),
;

/// The string made of `chars`.
pub fn string_of(chars: &[char]) -> (s: String)
    ensures
        s@ == chars@,
{
    let mut s = String::new();
    let mut i: usize = 0;
    while i < chars.len()
        invariant
            i <= chars@.len(),
            s@ == chars@.take(i as int),
        decreases chars@.len() - i,
    {
        s.push(chars[i]);
        i += 1;
    }
    s
}

/// Whether two texts are the same.
pub fn text_eq(a: &str, b: &str) -> (same: bool)
    ensures
        same == (a@ == b@),
{
    let a = chars_of(a);
    let b = chars_of(b);
    chars_eq(a.as_slice(), b.as_slice())
}

/// Whether two runs of characters are the same.
pub fn chars_eq(a: &[char], b: &[char]) -> (same: bool)
    ensures
        same == (a@ == b@),
{
    if a.len() != b.len() {
        return false;
    }
    let mut i: usize = 0;
    while i < a.len()
        invariant
            i <= a@.len(),
            a@.len() == b@.len(),
            forall|j: int| 0 <= j < i ==> a@[j] == b@[j],
        decreases a@.len() - i,
    {
        if a[i] != b[i] {
            return false;
        }
        i += 1;
    }
    assert(a@ =~= b@);
    true
}

/// `c` with an ASCII capital letter turned into its small form.
pub fn to_ascii_lower(c: char) -> (lower: char)
    ensures
        lower == ascii_lower(c),
{
    if 'A' <= c && c <= 'Z' {
        ((c as u8) + 32u8) as char
    } else {
        c
    }
}

/// Whether two texts are the same but for the case of ASCII letters.
pub fn eq_ignore_ascii_case(a: &str, b: &str) -> (same: bool)
    ensures
        same == (ascii_folded(a@) == ascii_folded(b@)),
{
    let ghost fa = ascii_folded(a@);
    let ghost fb = ascii_folded(b@);
    let xs = chars_of(a);
    let ys = chars_of(b);
    if xs.len() != ys.len() {
        assert(fa.len() != fb.len());
        return false;
    }
    let mut i: usize = 0;
    while i < xs.len()
        invariant
            xs@ == a@,
            ys@ == b@,
            i <= xs@.len(),
            xs@.len() == ys@.len(),
            fa == ascii_folded(a@),
            fb == ascii_folded(b@),
            forall|j: int| 0 <= j < i ==> fa[j] == fb[j],
        decreases xs@.len() - i,
    {
        if to_ascii_lower(xs[i]) != to_ascii_lower(ys[i]) {
            assert(fa[i as int] != fb[i as int]);
            return false;
        }
        i += 1;
    }
    assert(fa =~= fb);
    true
}

/// Whether a text consists of ASCII characters.
pub open spec fn ascii_only(s: Seq<char>) -> bool {
    forall|i: int| 0 <= i < s.len() ==> (#[trigger] s[i]) as int <= 127
}

/// The text in Unicode capital letters.
pub uninterp spec fn uppercase(s: Seq<char>) -> Seq<char>;

/// Calls `str::to_uppercase`; the result is named [`uppercase`].
#[verifier::external_body]
pub(crate) fn to_uppercase(s: &str) -> (upper: String)
    ensures
        upper@ == uppercase(s@),
{
    s.to_uppercase()
}

/// The text in Unicode small letters.
pub uninterp spec fn lowercase(s: Seq<char>) -> Seq<char>;

/// Calls `str::to_lowercase`; the result is named [`lowercase`].
#[verifier::external_body]
pub(crate) fn to_lowercase(s: &str) -> (lower: String)
    ensures
        lower@ == lowercase(s@),
{
    s.to_lowercase()
}

/// Whether Unicode counts the character as white space: the characters with its
/// `White_Space` property.
pub open spec fn whitespace(c: char) -> bool {
    ||| '\u{9}' <= c <= '\u{d}'
    ||| c == ' '
    ||| c == '\u{85}'
    ||| c == '\u{a0}'
    ||| c == '\u{1680}'
    ||| '\u{2000}' <= c <= '\u{200a}'
    ||| c == '\u{2028}'
    ||| c == '\u{2029}'
    ||| c == '\u{202f}'
    ||| c == '\u{205f}'
    ||| c == '\u{3000}'
}

/// Whether Unicode counts the character as white space.
pub fn is_whitespace(c: char) -> (white: bool)
    ensures
        white == whitespace(c),
{
    match c {
        '\u{9}'..='\u{d}' => true,
        ' ' | '\u{85}' | '\u{a0}' | '\u{1680}' => true,
        '\u{2000}'..='\u{200a}' => true,
        '\u{2028}' | '\u{2029}' | '\u{202f}' | '\u{205f}' | '\u{3000}' => true,
        _ => false,
    }
}

/// `s` without the white space it starts with.
pub open spec fn trimmed_start(s: Seq<char>) -> Seq<char>
    decreases s.len(),
{
    if s.len() > 0 && whitespace(s[0]) {
        trimmed_start(s.drop_first())
    } else {
        s
    }
}

/// `s` without the white space it ends with.
pub open spec fn trimmed_end(s: Seq<char>) -> Seq<char>
    decreases s.len(),
{
    if s.len() > 0 && whitespace(s.last()) {
        trimmed_end(s.drop_last())
    } else {
        s
    }
}

/// `s` without the white space at either end.
pub open spec fn trimmed(s: Seq<char>) -> Seq<char> {
    trimmed_end(trimmed_start(s))
}

/// The characters of `chars` without the white space at either end.
pub fn trim_chars(chars: &[char]) -> (inner: Vec<char>)
    ensures
        inner@ == trimmed(chars@),
{
    let mut start: usize = 0;
    assert(chars@.skip(0) =~= chars@);
    while start < chars.len() && is_whitespace(chars[start])
        invariant
            start <= chars@.len(),
            trimmed_start(chars@.skip(start as int)) == trimmed_start(chars@),
        ensures
            start <= chars@.len(),
            chars@.skip(start as int) == trimmed_start(chars@),
        decreases chars@.len() - start,
    {
        assert(chars@.skip(start as int).drop_first() =~= chars@.skip(start as int + 1));
        start += 1;
    }
    let mut end: usize = chars.len();
    let ghost from = chars@.skip(start as int);
    assert(chars@.subrange(start as int, end as int) =~= from);
    while start < end && is_whitespace(chars[end - 1])
        invariant
            start <= end <= chars@.len(),
            trimmed_end(chars@.subrange(start as int, end as int)) == trimmed_end(from),
        ensures
            start <= end <= chars@.len(),
            chars@.subrange(start as int, end as int) == trimmed_end(from),
        decreases end,
    {
        assert(chars@.subrange(start as int, end as int).drop_last() =~= chars@.subrange(
            start as int,
            end as int - 1,
        ));
        end -= 1;
    }
    let mut inner: Vec<char> = Vec::new();
    let mut i: usize = start;
    while i < end
        invariant
            start <= i <= end <= chars@.len(),
            inner@ == chars@.subrange(start as int, i as int),
        decreases end - i,
    {
        inner.push(chars[i]);
        i += 1;
    }
    inner
}

/// `s` without the white space at either end.
pub fn trim(s: &str) -> (inner: String)
    ensures
        inner@ == trimmed(s@),
{
    let chars = chars_of(s);
    string_of(trim_chars(chars.as_slice()).as_slice())
}

/// The decimal digit for `d`.
pub open spec fn digit_char(d: nat) -> char {
    (48 + d) as char
}

/// The decimal form of `n`, without leading zeros.
pub open spec fn decimal(n: nat) -> Seq<char>
    decreases n,
{
    if n < 10 {
        seq![digit_char(n)]
    } else {
        decimal(n / 10).push(digit_char(n % 10))
    }
}

/// Whether `c` is a decimal digit.
pub open spec fn is_digit(c: char) -> bool {
    '0' <= c && c <= '9'
}

/// Whether `s` consists of decimal digits.
pub open spec fn all_digits(s: Seq<char>) -> bool {
    forall|i: int| 0 <= i < s.len() ==> is_digit(#[trigger] s[i])
}

/// The number that a run of decimal digits stands for.
pub open spec fn digits_value(s: Seq<char>) -> nat
    decreases s.len(),
{
    if s.len() == 0 {
        0
    } else {
        digits_value(s.drop_last()) * 10 + ((s.last() as int - 48) as nat)
    }
}

/// The decimal digit for `d`.
pub fn digit(d: u64) -> (c: char)
    requires
        d < 10,
    ensures
        c == digit_char(d as nat),
{
    (48u8 + d as u8) as char
}

/// The decimal form of `n`.
pub fn to_decimal(n: u64) -> (s: String)
    ensures
        s@ == decimal(n as nat),
    decreases n,
{
    if n < 10 {
        let mut s = String::new();
        s.push(digit(n));
        assert(s@ =~= decimal(n as nat));
        s
    } else {
        let mut s = to_decimal(n / 10);
        s.push(digit(n % 10));
        s
    }
}

/// Reading back a decimal form gives the number it was made of.
pub proof fn lemma_decimal_round_trip(n: nat)
    ensures
        digits_value(decimal(n)) == n,
        all_digits(decimal(n)),
        decimal(n).len() >= 1,
    decreases n,
{
    if n < 10 {
        let s = decimal(n);
        assert(s.drop_last() =~= Seq::<char>::empty());
        assert(digits_value(s.drop_last()) == 0);
    } else {
        lemma_decimal_round_trip(n / 10);
        let s = decimal(n);
        assert(s.drop_last() =~= decimal(n / 10));
    }
}

/// Whether `a` comes before `b` in the order of strings: character by
/// character, a prefix before what extends it.
pub open spec fn text_less(a: Seq<char>, b: Seq<char>) -> bool
    decreases a.len(),
{
    if b.len() == 0 {
        false
    } else if a.len() == 0 {
        true
    } else if a[0] != b[0] {
        a[0] < b[0]
    } else {
        text_less(a.drop_first(), b.drop_first())
    }
}

/// Of two different texts exactly one comes first.
pub proof fn lemma_text_less_total(a: Seq<char>, b: Seq<char>)
    ensures
        a == b ==> !text_less(a, b),
        a != b ==> text_less(a, b) != text_less(b, a),
    decreases a.len(),
{
    if a.len() > 0 && b.len() > 0 {
        if a[0] == b[0] {
            lemma_text_less_total(a.drop_first(), b.drop_first());
            if a.drop_first() == b.drop_first() {
                assert(a =~= seq![a[0]] + a.drop_first());
                assert(b =~= seq![b[0]] + b.drop_first());
            }
        }
    } else if a.len() == b.len() {
        assert(a =~= b);
    }
}

/// The order of texts is transitive.
pub proof fn lemma_text_less_transitive(a: Seq<char>, b: Seq<char>, c: Seq<char>)
    requires
        text_less(a, b),
        text_less(b, c),
    ensures
        text_less(a, c),
    decreases a.len(),
{
    if a.len() > 0 && a[0] == b[0] && b[0] == c[0] {
        lemma_text_less_transitive(a.drop_first(), b.drop_first(), c.drop_first());
    }
}

/// Whether `a` comes before `b` in the order of strings.
pub fn text_before(a: &str, b: &str) -> (before: bool)
    ensures
        before == text_less(a@, b@),
{
    let xs = chars_of(a);
    let ys = chars_of(b);
    let mut i: usize = 0;
    assert(a@.skip(0) =~= a@ && b@.skip(0) =~= b@);
    while i < xs.len() && i < ys.len()
        invariant
            xs@ == a@,
            ys@ == b@,
            i <= a@.len(),
            i <= b@.len(),
            text_less(a@, b@) == text_less(a@.skip(i as int), b@.skip(i as int)),
        decreases a@.len() - i,
    {
        if xs[i] != ys[i] {
            return xs[i] < ys[i];
        }
        assert(a@.skip(i as int).drop_first() =~= a@.skip(i as int + 1));
        assert(b@.skip(i as int).drop_first() =~= b@.skip(i as int + 1));
        i += 1;
    }
    i < ys.len()
}

/// Whether `needle` occurs in `s`.
pub open spec fn occurs_in(needle: Seq<char>, s: Seq<char>) -> bool {
    exists|i: int|
        0 <= i <= s.len() - needle.len() && #[trigger] s.subrange(i, i + needle.len()) == needle
}

/// Whether `needle` occurs in `s` as it goes on from `at`.
fn occurs_at(s: &[char], needle: &[char], at: usize) -> (found: bool)
    requires
        at + needle@.len() <= s@.len(),
    ensures
        found == (s@.subrange(at as int, at + needle@.len()) == needle@),
{
    let len: usize = s.len();
    let mut i: usize = 0;
    while i < needle.len()
        invariant
            i <= needle@.len(),
            len == s@.len(),
            at + needle@.len() <= len,
            forall|j: int| 0 <= j < i ==> s@[at + j] == needle@[j],
        decreases needle@.len() - i,
    {
        if s[at + i] != needle[i] {
            assert(s@.subrange(at as int, at + needle@.len())[i as int] != needle@[i as int]);
            return false;
        }
        i += 1;
    }
    assert(s@.subrange(at as int, at + needle@.len()) =~= needle@);
    true
}

/// Whether `needle` occurs in `s`.
pub fn contains_text(s: &str, needle: &str) -> (found: bool)
    ensures
        found == occurs_in(needle@, s@),
{
    let s_chars = chars_of(s);
    let n_chars = chars_of(needle);
    if n_chars.len() > s_chars.len() {
        return false;
    }
    let last: usize = s_chars.len() - n_chars.len();
    let mut at: usize = 0;
    while at < last
        invariant
            s_chars@ == s@,
            n_chars@ == needle@,
            last == s@.len() - needle@.len(),
            at <= last,
            forall|i: int| 0 <= i < at ==> #[trigger] s@.subrange(i, i + needle@.len()) != needle@,
        decreases last - at,
    {
        if occurs_at(s_chars.as_slice(), n_chars.as_slice(), at) {
            return true;
        }
        at += 1;
    }
    occurs_at(s_chars.as_slice(), n_chars.as_slice(), last)
}

/// Whether `s` starts with `prefix`.
pub fn starts_with(s: &str, prefix: &str) -> (found: bool)
    ensures
        found == prefix@.is_prefix_of(s@),
{
    let s_chars = chars_of(s);
    let p_chars = chars_of(prefix);
    if p_chars.len() > s_chars.len() {
        return false;
    }
    occurs_at(s_chars.as_slice(), p_chars.as_slice(), 0)
}

/// The hexadecimal digit for `d`.
pub open spec fn hex_char(d: nat) -> char {
    if d < 10 {
        (48 + d) as char
    } else {
        (87 + d) as char
    }
}

/// Two lower-case hexadecimal digits for each byte.
pub open spec fn hex_text(bytes: Seq<u8>) -> Seq<char> {
    Seq::new(
        2 * bytes.len(),
        |i: int|
            if i % 2 == 0 {
                hex_char(bytes[i / 2] as nat / 16)
            } else {
                hex_char(bytes[i / 2] as nat % 16)
            },
    )
}

/// The hexadecimal digit for `d`.
fn hex_digit(d: u8) -> (c: char)
    requires
        d < 16,
    ensures
        c == hex_char(d as nat),
{
    if d < 10 {
        (48u8 + d) as char
    } else {
        (87u8 + d) as char
    }
}

/// Two lower-case hexadecimal digits for each byte.
pub fn to_hex(bytes: &[u8]) -> (s: String)
    ensures
        s@ == hex_text(bytes@),
{
    let mut s = String::new();
    let mut i: usize = 0;
    while i < bytes.len()
        invariant
            i <= bytes@.len(),
            s@ == hex_text(bytes@.take(i as int)),
        decreases bytes@.len() - i,
    {
        let ghost before = s@;
        s.push(hex_digit(bytes[i] / 16));
        s.push(hex_digit(bytes[i] % 16));
        i += 1;
        assert(s@ =~= hex_text(bytes@.take(i as int)));
    }
    assert(bytes@.take(i as int) =~= bytes@);
    s
}

/// Whether `c` is a lower-case hexadecimal digit.
pub open spec fn is_hex_char(c: char) -> bool {
    ('0' <= c && c <= '9') || ('a' <= c && c <= 'f')
}

/// A hexadecimal text is twice as long as what it stands for, and made of
/// hexadecimal digits only.
pub proof fn lemma_hex_text(bytes: Seq<u8>)
    ensures
        hex_text(bytes).len() == 2 * bytes.len(),
        forall|i: int| 0 <= i < hex_text(bytes).len() ==> is_hex_char(#[trigger] hex_text(bytes)[i]),
{
}

/// Copies of `items`.
pub fn clone_strings(items: &Vec<String>) -> (copies: Vec<String>)
    ensures
        views(copies@) == views(items@),
{
    let mut copies: Vec<String> = Vec::new();
    let mut i: usize = 0;
    while i < items.len()
        invariant
            i <= items@.len(),
            copies@.len() == i,
            forall|j: int| 0 <= j < i ==> (#[trigger] copies@[j])@ == items@[j]@,
        decreases items@.len() - i,
    {
        copies.push(items[i].clone());
        i += 1;
    }
    assert(views(copies@) =~= views(items@));
    copies
}

/// A copy of a text that may be absent.
pub fn clone_option(item: &Option<String>) -> (copy: Option<String>)
    ensures
        option_view(copy) == option_view(*item),
{
    match item {
        Some(text) => Some(text.clone()),
        None => None,
    }
}

/// A byte with an ASCII capital letter turned into its small form.
pub open spec fn byte_lower(b: u8) -> u8 {
    if 65 <= b && b <= 90 {
        (b + 32) as u8
    } else {
        b
    }
}

/// Bytes with their ASCII capital letters turned into their small forms.
pub open spec fn folded_bytes(bytes: Seq<u8>) -> Seq<u8> {
    bytes.map_values(|b: u8| byte_lower(b))
}

/// A byte with an ASCII capital letter turned into its small form.
pub fn to_byte_lower(b: u8) -> (lower: u8)
    ensures
        lower == byte_lower(b),
{
    if 65 <= b && b <= 90 {
        b + 32
    } else {
        b
    }
}

proof fn lemma_wide_bytes(scalar: u32)
    requires
        is_scalar(scalar),
        scalar >= 0x80,
    ensures
        forall|i: int|
            0 <= i < encode_scalar(scalar).len() ==> #[trigger] encode_scalar(scalar)[i] >= 0x80,
{
    assert((0xC0u8 | ((scalar >> 6) & 0x1F) as u8) >= 0x80) by (bit_vector);
    assert((0xE0u8 | ((scalar >> 12) & 0x0F) as u8) >= 0x80) by (bit_vector);
    assert((0xF0u8 | ((scalar >> 18) & 0x7) as u8) >= 0x80) by (bit_vector);
    assert((0x80u8 | (scalar & 0x3F) as u8) >= 0x80) by (bit_vector);
    assert((0x80u8 | ((scalar >> 6) & 0x3F) as u8) >= 0x80) by (bit_vector);
    assert((0x80u8 | ((scalar >> 12) & 0x3F) as u8) >= 0x80) by (bit_vector);
}

proof fn lemma_fold_scalar(c: char)
    ensures
        encode_scalar(ascii_lower(c) as u32) == folded_bytes(encode_scalar(c as u32)),
{
    char_is_scalar(c);
    let scalar = c as u32;
    if scalar < 0x80 {
        let lower = ascii_lower(c) as u32;
        assert(scalar & 0x7F == scalar) by (bit_vector)
            requires
                scalar < 0x80,
        ;
        assert(lower & 0x7F == lower) by (bit_vector)
            requires
                lower < 0x80,
        ;
        assert(encode_scalar(lower) =~= folded_bytes(encode_scalar(scalar)));
    } else {
        lemma_wide_bytes(scalar);
        assert(encode_scalar(scalar) =~= folded_bytes(encode_scalar(scalar)));
    }
}

/// Folding the characters of a text and folding the bytes of its encoding is
/// the same.
pub proof fn lemma_fold_encoding(s: Seq<char>)
    ensures
        encode_utf8(ascii_folded(s)) == folded_bytes(encode_utf8(s)),
    decreases s.len(),
{
    let folded = ascii_folded(s);
    if s.len() > 0 {
        lemma_fold_scalar(s[0]);
        lemma_fold_encoding(s.drop_first());
        assert(folded.drop_first() =~= ascii_folded(s.drop_first()));
        assert(folded_bytes(encode_utf8(s)) =~= folded_bytes(encode_scalar(s[0] as u32))
            + folded_bytes(encode_utf8(s.drop_first())));
    } else {
        assert(encode_utf8(folded) =~= folded_bytes(encode_utf8(s)));
    }
}

/// The encoding of a text joined of two is their encodings joined.
pub proof fn lemma_encode_concat(a: Seq<char>, b: Seq<char>)
    ensures
        encode_utf8(a + b) == encode_utf8(a) + encode_utf8(b),
    decreases a.len(),
{
    if a.len() == 0 {
        assert(a + b =~= b);
        assert(encode_utf8(a) + encode_utf8(b) =~= encode_utf8(b));
    } else {
        lemma_encode_concat(a.drop_first(), b);
        assert((a + b).drop_first() =~= a.drop_first() + b);
        assert(encode_utf8(a + b) =~= encode_utf8(a) + encode_utf8(b));
    }
}

/// Texts with the same encoding are the same.
pub proof fn lemma_encoding_injective(a: Seq<char>, b: Seq<char>)
    requires
        encode_utf8(a) == encode_utf8(b),
    ensures
        a == b,
{
    encode_utf8_decode_utf8(a);
    encode_utf8_decode_utf8(b);
}

/// Texts in ascending order, where equal ones may follow each other.
pub open spec fn ascending(items: Seq<Seq<char>>) -> bool {
    forall|i: int, j: int|
        #![trigger items[i], items[j]]
        0 <= i < j < items.len() ==> !text_less(items[j], items[i])
}

/// An ascending list stays so when a text is put behind those that come no
/// later and before those that come later.
pub proof fn lemma_insert_ascending(before: Seq<Seq<char>>, at: int, text: Seq<char>)
    requires
        ascending(before),
        0 <= at <= before.len(),
        forall|j: int| at <= j < before.len() ==> text_less(text, #[trigger] before[j]),
        at > 0 ==> !text_less(text, before[at - 1]),
    ensures
        ascending(before.insert(at, text)),
{
    let after = before.insert(at, text);
    assert forall|i: int, j: int|
        #![trigger after[i], after[j]]
        0 <= i < j < after.len() implies !text_less(after[j], after[i]) by {
        if j < at {
            assert(after[i] == before[i] && after[j] == before[j]);
        } else if i > at {
            assert(after[i] == before[i - 1] && after[j] == before[j - 1]);
        } else if j == at {
            assert(after[i] == before[i]);
            if i < at - 1 {
                let near = before[at - 1];
                assert(!text_less(near, before[i]));
                lemma_text_less_total(text, near);
                lemma_text_less_total(near, before[i]);
                if text_less(text, before[i]) {
                    lemma_text_less_total(text, before[i]);
                    if near != before[i] {
                        lemma_text_less_transitive(text, before[i], near);
                    }
                }
            }
        } else if i == at {
            assert(after[j] == before[j - 1]);
            lemma_text_less_total(text, before[j - 1]);
        } else {
            assert(after[i] == before[i] && after[j] == before[j - 1]);
        }
    }
}

/// Put `item` into an ascending list, behind those that come no later.
fn insert_ascending(items: &mut Vec<String>, item: String)
    requires
        ascending(views(old(items)@)),
    ensures
        ascending(views(final(items)@)),
        views(final(items)@).to_multiset() == views(old(items)@).to_multiset().insert(item@),
{
    let ghost before = views(items@);
    let ghost text = item@;
    let mut at: usize = items.len();
    while at > 0 && text_before(item.as_str(), items[at - 1].as_str())
        invariant
            at <= items@.len(),
            item@ == text,
            before == views(items@),
            forall|j: int| at <= j < items@.len() ==> text_less(text, #[trigger] before[j]),
        ensures
            at <= items@.len(),
            item@ == text,
            before == views(items@),
            forall|j: int| at <= j < items@.len() ==> text_less(text, #[trigger] before[j]),
            at > 0 ==> !text_less(text, before[at - 1]),
        decreases at,
    {
        at -= 1;
    }
    items.insert(at, item);
    proof {
        assert(views(items@) =~= before.insert(at as int, text));
        vstd::seq_lib::to_multiset_insert(before, at as int, text);
        lemma_insert_ascending(before, at as int, text);
    }
}

/// The texts of `items` in ascending order.
pub fn sorted_texts(items: Vec<String>) -> (sorted: Vec<String>)
    ensures
        ascending(views(sorted@)),
        views(sorted@).to_multiset() == views(items@).to_multiset(),
{
    let mut sorted: Vec<String> = Vec::new();
    let mut i: usize = 0;
    assert(views(items@).take(0) =~= views(sorted@));
    while i < items.len()
        invariant
            i <= items@.len(),
            ascending(views(sorted@)),
            views(sorted@).to_multiset() == views(items@).take(i as int).to_multiset(),
        decreases items@.len() - i,
    {
        proof {
            let head = views(items@).take(i as int);
            assert(views(items@).take(i as int + 1) =~= head.push(items@[i as int]@));
            vstd::seq_lib::to_multiset_build(head, items@[i as int]@);
        }
        insert_ascending(&mut sorted, items[i].clone());
        i += 1;
    }
    assert(views(items@).take(i as int) =~= views(items@));
    sorted
}

/// Characters of `s` before its first white space.
pub open spec fn word_len(s: Seq<char>) -> nat
    decreases s.len(),
{
    if s.len() == 0 || whitespace(s[0]) {
        0
    } else {
        1 + word_len(s.drop_first())
    }
}

/// A word is no longer than the text it starts.
pub proof fn lemma_word_len(s: Seq<char>)
    ensures
        word_len(s) <= s.len(),
    decreases s.len(),
{
    if s.len() > 0 && !whitespace(s[0]) {
        lemma_word_len(s.drop_first());
    }
}

/// The words of `s`: what white space separates.
pub open spec fn words(s: Seq<char>) -> Seq<Seq<char>>
    decreases s.len(),
{
    if s.len() == 0 {
        Seq::empty()
    } else if whitespace(s[0]) {
        words(s.drop_first())
    } else {
        proof {
            lemma_word_len(s);
        }
        seq![s.take(word_len(s) as int)] + words(s.skip(word_len(s) as int))
    }
}

/// `n` zeros.
pub open spec fn zeros(n: nat) -> Seq<char> {
    Seq::new(n, |i: int| '0')
}

/// The decimal form of `n`, filled up with zeros in front to `width` digits.
pub open spec fn padded(n: nat, width: nat) -> Seq<char> {
    let digits = decimal(n);
    if digits.len() >= width {
        digits
    } else {
        zeros((width - digits.len()) as nat) + digits
    }
}

/// The decimal form of `n`, filled up with zeros in front to `width` digits.
pub fn to_padded(n: u64, width: usize) -> (s: String)
    ensures
        s@ == padded(n as nat, width as nat),
{
    let digits = to_decimal(n);
    let chars = chars_of(digits.as_str());
    if chars.len() >= width {
        return digits;
    }
    let missing: usize = width - chars.len();
    let mut s = String::new();
    let mut i: usize = 0;
    while i < missing
        invariant
            i <= missing,
            s@ == zeros(i as nat),
        decreases missing - i,
    {
        s.push('0');
        i += 1;
        assert(s@ =~= zeros(i as nat));
    }
    s.append(digits.as_str());
    s
}

/// What a digit is worth.
pub open spec fn digit_value(c: char) -> nat {
    (c as int - 48) as nat
}

/// The first digit counts for the power of ten of its place.
proof fn lemma_first_digit(s: Seq<char>)
    requires
        s.len() > 0,
        all_digits(s),
    ensures
        digits_value(s) == digit_value(s[0]) * pow(10, (s.len() - 1) as nat) + digits_value(
            s.drop_first(),
        ),
    decreases s.len(),
{
    reveal(pow);
    if s.len() == 1 {
        assert(s.drop_first() =~= Seq::<char>::empty());
        assert(s.drop_last() =~= Seq::<char>::empty());
        assert(pow(10, 0) == 1);
        assert(is_digit(s[0]));
    } else {
        let head = s.drop_last();
        let tail = s.drop_first();
        assert forall|i: int| 0 <= i < head.len() implies is_digit(#[trigger] head[i]) by {
            assert(head[i] == s[i]);
        }
        lemma_first_digit(head);
        assert(head.drop_first() =~= tail.drop_last());
        assert(tail.last() == s.last());
        let k = (s.len() - 2) as nat;
        assert(pow(10, k + 1) == 10 * pow(10, k));
        let d = digit_value(s[0]);
        assert(d * (10 * pow(10, k)) == (d * pow(10, k)) * 10) by (nonlinear_arith);
    }
}

/// A run of digits is worth less than the power of ten that has one digit more.
proof fn lemma_digits_bound(s: Seq<char>)
    requires
        all_digits(s),
    ensures
        digits_value(s) < pow(10, s.len()),
    decreases s.len(),
{
    reveal(pow);
    if s.len() > 0 {
        let head = s.drop_last();
        assert forall|i: int| 0 <= i < head.len() implies is_digit(#[trigger] head[i]) by {
            assert(head[i] == s[i]);
        }
        lemma_digits_bound(head);
        assert(is_digit(s[s.len() - 1]));
        assert(pow(10, s.len()) == 10 * pow(10, head.len()));
    } else {
        assert(pow(10, 0) == 1);
    }
}

/// Runs of digits of one length sort as text the way their values do.
pub proof fn lemma_digits_order(a: Seq<char>, b: Seq<char>)
    requires
        all_digits(a),
        all_digits(b),
        a.len() == b.len(),
    ensures
        text_less(a, b) <==> digits_value(a) < digits_value(b),
        a == b <==> digits_value(a) == digits_value(b),
    decreases a.len(),
{
    if a.len() > 0 {
        let ta = a.drop_first();
        let tb = b.drop_first();
        assert forall|i: int| 0 <= i < ta.len() implies is_digit(#[trigger] ta[i]) by {
            assert(ta[i] == a[i + 1]);
        }
        assert forall|i: int| 0 <= i < tb.len() implies is_digit(#[trigger] tb[i]) by {
            assert(tb[i] == b[i + 1]);
        }
        assert(is_digit(a[0]) && is_digit(b[0]));
        lemma_first_digit(a);
        lemma_first_digit(b);
        lemma_digits_bound(ta);
        lemma_digits_bound(tb);
        lemma_digits_order(ta, tb);
        let p = pow(10, ta.len());
        let x = digit_value(a[0]);
        let y = digit_value(b[0]);
        if x < y {
            assert(x * p + p <= y * p) by (nonlinear_arith)
                requires
                    x + 1 <= y,
                    p >= 0,
            ;
        } else if y < x {
            assert(y * p + p <= x * p) by (nonlinear_arith)
                requires
                    y + 1 <= x,
                    p >= 0,
            ;
        } else {
            assert(a[0] == b[0]);
            if ta == tb {
                assert(a =~= seq![a[0]] + ta);
                assert(b =~= seq![b[0]] + tb);
            }
        }
    } else {
        assert(a =~= b);
    }
}

/// Leading zeros are worth nothing.
proof fn lemma_zeros(n: nat, digits: Seq<char>)
    requires
        all_digits(digits),
    ensures
        all_digits(zeros(n) + digits),
        digits_value(zeros(n) + digits) == digits_value(digits),
    decreases digits.len() + n,
{
    let s = zeros(n) + digits;
    assert forall|i: int| 0 <= i < s.len() implies is_digit(#[trigger] s[i]) by {
        if i >= n {
            assert(s[i] == digits[i - n]);
        }
    }
    if digits.len() > 0 {
        let shorter = digits.drop_last();
        assert forall|i: int| 0 <= i < shorter.len() implies is_digit(#[trigger] shorter[i]) by {
            assert(shorter[i] == digits[i]);
        }
        assert(s.drop_last() =~= zeros(n) + shorter);
        lemma_zeros(n, shorter);
    } else if n > 0 {
        assert(s.drop_last() =~= zeros((n - 1) as nat) + digits);
        lemma_zeros((n - 1) as nat, digits);
        assert(s.last() == '0');
    } else {
        assert(s =~= digits);
    }
}

/// A number is at least as large as its number of digits demands.
proof fn lemma_decimal_len(n: nat, width: nat)
    requires
        n < pow(10, width),
        width > 0,
    ensures
        decimal(n).len() <= width,
    decreases width,
{
    reveal(pow);
    if n >= 10 {
        assert(pow(10, width) == 10 * pow(10, (width - 1) as nat));
        if width == 1 {
            assert(pow(10, 0) == 1);
        } else {
            lemma_decimal_len(n / 10, (width - 1) as nat);
        }
    }
}

/// Numbers that fit the width sort as padded text the way they do as numbers.
pub proof fn lemma_padded_order(a: nat, b: nat, width: nat)
    requires
        a < pow(10, width),
        b < pow(10, width),
        width > 0,
    ensures
        padded(a, width).len() == width,
        padded(b, width).len() == width,
        text_less(padded(a, width), padded(b, width)) <==> a < b,
        padded(a, width) == padded(b, width) <==> a == b,
{
    lemma_padded(a, width);
    lemma_padded(b, width);
    lemma_digits_order(padded(a, width), padded(b, width));
}

/// A number that fits the width is padded to it, and keeps its value.
pub proof fn lemma_padded(n: nat, width: nat)
    requires
        n < pow(10, width),
        width > 0,
    ensures
        padded(n, width).len() == width,
        all_digits(padded(n, width)),
        digits_value(padded(n, width)) == n,
{
    lemma_decimal_round_trip(n);
    lemma_decimal_len(n, width);
    let digits = decimal(n);
    if digits.len() < width {
        lemma_zeros((width - digits.len()) as nat, digits);
    }
}

/// Texts that start with parts of one length are ordered by those parts, and by
/// what follows where the parts are the same.
pub proof fn lemma_text_less_concat(a: Seq<char>, b: Seq<char>, x: Seq<char>, y: Seq<char>)
    requires
        a.len() == b.len(),
    ensures
        text_less(a + x, b + y) <==> text_less(a, b) || (a == b && text_less(x, y)),
    decreases a.len(),
{
    if a.len() == 0 {
        assert(a =~= b);
        assert(a + x =~= x);
        assert(b + y =~= y);
    } else {
        let ta = a.drop_first();
        let tb = b.drop_first();
        assert((a + x).drop_first() =~= ta + x);
        assert((b + y).drop_first() =~= tb + y);
        lemma_text_less_concat(ta, tb, x, y);
        if a[0] == b[0] && ta == tb {
            assert(a =~= seq![a[0]] + ta);
            assert(b =~= seq![b[0]] + tb);
        }
    }
}

/// More digits are never worth less.
proof fn lemma_digits_grow(s: Seq<char>, n: int)
    requires
        all_digits(s),
        0 <= n <= s.len(),
    ensures
        digits_value(s.take(n)) <= digits_value(s),
    decreases s.len(),
{
    if n < s.len() {
        let shorter = s.drop_last();
        assert forall|i: int| 0 <= i < shorter.len() implies is_digit(#[trigger] shorter[i]) by {
            assert(shorter[i] == s[i]);
        }
        assert(shorter.take(n) =~= s.take(n));
        lemma_digits_grow(shorter, n);
    } else {
        assert(s.take(n) =~= s);
    }
}

/// The digits of a number that may carry a plus sign.
pub open spec fn unsigned_digits(s: Seq<char>) -> Seq<char> {
    if s.len() > 0 && s[0] == '+' {
        s.drop_first()
    } else {
        s
    }
}

/// The 32-bit number that `s` stands for, if it does: decimal digits, with or
/// without a plus sign.
pub open spec fn parsed_u32(s: Seq<char>) -> Option<u32> {
    let digits = unsigned_digits(s);
    if digits.len() > 0 && all_digits(digits) && digits_value(digits) <= u32::MAX {
        Some(digits_value(digits) as u32)
    } else {
        None
    }
}

/// The 32-bit number that `chars` stand for, if they do.
pub fn parse_u32(chars: &[char]) -> (n: Option<u32>)
    ensures
        n == parsed_u32(chars@),
{
    let start: usize = if chars.len() > 0 && chars[0] == '+' {
        1
    } else {
        0
    };
    let ghost digits = unsigned_digits(chars@);
    assert(digits =~= chars@.skip(start as int));
    if chars.len() == start {
        return None;
    }
    let mut value: u64 = 0;
    let mut i: usize = start;
    while i < chars.len()
        invariant
            start <= i <= chars@.len(),
            digits == unsigned_digits(chars@),
            digits == chars@.skip(start as int),
            start < chars@.len(),
            value <= u32::MAX,
            forall|j: int| 0 <= j < i - start ==> is_digit(#[trigger] digits[j]),
            value == digits_value(digits.take(i - start)),
        decreases chars@.len() - i,
    {
        let c = chars[i];
        let ghost at = i - start;
        assert(digits[at] == c);
        if c < '0' || c > '9' {
            assert(!is_digit(digits[at]));
            return None;
        }
        proof {
            assert(digits.take(at + 1).drop_last() =~= digits.take(at));
            assert(digits.take(at + 1).last() == c);
        }
        value = value * 10 + (c as u64 - 48);
        if value > u32::MAX as u64 {
            proof {
                if all_digits(digits) {
                    lemma_digits_grow(digits, at + 1);
                }
            }
            return None;
        }
        i += 1;
    }
    assert(digits.take(i - start) =~= digits);
    Some(value as u32)
}

/// A number that was written in decimal is read back.
pub proof fn lemma_parse_decimal(n: u32)
    ensures
        parsed_u32(decimal(n as nat)) == Some(n),
{
    lemma_decimal_round_trip(n as nat);
    let digits = decimal(n as nat);
    assert(is_digit(digits[0]));
    assert(unsigned_digits(digits) == digits);
}

/// The views of some values are those of each of them, in their order.
pub proof fn law_views_are_taken_one_by_one<T: View>(items: Seq<T>, i: int)
    ensures
        views(items).len() == items.len(),
        0 <= i < items.len() ==> views(items)[i] == items[i]@,
{
}

/// A value that is there is seen, and one that is absent is not.
pub proof fn law_absent_values_are_told_apart<T: View>(item: T)
    ensures
        option_view(Some(item)) == Some(item@),
        option_view(None::<T>) is None,
{
}

/// Whether two characters are the same but for the case of an ASCII letter.
pub open spec fn same_letter(a: char, b: char) -> bool {
    ||| a == b
    ||| 'a' <= a <= 'z' && a as int == b as int + 32
    ||| 'a' <= b <= 'z' && b as int == a as int + 32
}

/// Two characters have the same small form if and only if nothing but the case of an
/// ASCII letter tells them apart.
pub proof fn lemma_same_letter(a: char, b: char)
    ensures
        same_letter(a, b) <==> ascii_lower(a) == ascii_lower(b),
{
    let x = ascii_lower(a);
    let y = ascii_lower(b);
    assert('A' <= a && a <= 'Z' ==> x as int == a as int + 32);
    assert('A' <= b && b <= 'Z' ==> y as int == b as int + 32);
}

/// Only ASCII capital letters change when a character is turned into its small form.
pub proof fn law_only_capitals_are_lowered(c: char, lower: char)
    requires
        call_ensures(to_ascii_lower, (c,), lower),
    ensures
        'A' <= c <= 'Z' ==> lower as int == c as int + 32,
        !('A' <= c <= 'Z') ==> lower == c,
{
}

/// Only the bytes of ASCII capital letters change when a byte is turned into its small
/// form.
pub proof fn law_only_capital_bytes_are_lowered(b: u8, lower: u8)
    requires
        call_ensures(to_byte_lower, (b,), lower),
    ensures
        0x41 <= b <= 0x5a ==> lower == b + 0x20,
        !(0x41 <= b <= 0x5a) ==> lower == b,
{
}

/// Two texts are the same but for case if and only if they are as long and each of their
/// characters is.
pub proof fn law_case_is_ignored_letter_by_letter(a: &str, b: &str, same: bool)
    requires
        call_ensures(eq_ignore_ascii_case, (a, b), same),
    ensures
        same <==> a@.len() == b@.len() && forall|i: int|
            0 <= i < a@.len() ==> same_letter(#[trigger] a@[i], b@[i]),
{
    let left = ascii_folded(a@);
    let right = ascii_folded(b@);
    assert(left.len() == a@.len() && right.len() == b@.len());
    if same {
        assert forall|i: int| 0 <= i < a@.len() implies same_letter(#[trigger] a@[i], b@[i]) by {
            assert(left[i] == right[i]);
            lemma_same_letter(a@[i], b@[i]);
        }
    }
    if a@.len() == b@.len() && forall|i: int|
        0 <= i < a@.len() ==> same_letter(#[trigger] a@[i], b@[i]) {
        assert forall|i: int| 0 <= i < left.len() implies left[i] == right[i] by {
            assert(same_letter(a@[i], b@[i]));
            lemma_same_letter(a@[i], b@[i]);
        }
        assert(left =~= right);
    }
}

/// In ASCII the blank and the controls from the tab to the carriage return are white
/// space. Beyond it nothing is but what Unicode lists, all of it below U+3001.
pub proof fn law_blanks_are_white_space(c: char, white: bool)
    requires
        call_ensures(is_whitespace, (c,), white),
    ensures
        (c as int) < 0x80 ==> (white <==> c as int == 0x20 || 0x09 <= c as int <= 0x0d),
        0x80 <= c as int && (c as int) < 0x2000 ==> (white <==> c as int == 0x85 || c as int == 0xa0
            || c as int == 0x1680),
        0x2000 <= c as int ==> (white <==> c as int <= 0x200a || c as int == 0x2028 || c as int
            == 0x2029 || c as int == 0x202f || c as int == 0x205f || c as int == 0x3000),
{
}

proof fn lemma_trimmed_start(s: Seq<char>)
    ensures
        exists|n: int|
            0 <= n <= s.len() && #[trigger] s.skip(n) == trimmed_start(s) && forall|i: int|
                0 <= i < n ==> whitespace(#[trigger] s[i]),
        trimmed_start(s).len() > 0 ==> !whitespace(trimmed_start(s)[0]),
    decreases s.len(),
{
    if s.len() > 0 && whitespace(s[0]) {
        let rest = s.drop_first();
        lemma_trimmed_start(rest);
        let m = choose|n: int|
            0 <= n <= rest.len() && #[trigger] rest.skip(n) == trimmed_start(rest) && forall|i: int|
                0 <= i < n ==> whitespace(#[trigger] rest[i]);
        assert(s.skip(m + 1) =~= rest.skip(m));
        assert forall|i: int| 0 <= i < m + 1 implies whitespace(#[trigger] s[i]) by {
            if i > 0 {
                assert(rest[i - 1] == s[i]);
            }
        }
    } else {
        assert(s.skip(0) =~= s);
    }
}

proof fn lemma_trimmed_end(s: Seq<char>)
    ensures
        exists|n: int|
            0 <= n <= s.len() && #[trigger] s.take(n) == trimmed_end(s) && forall|i: int|
                n <= i < s.len() ==> whitespace(#[trigger] s[i]),
        trimmed_end(s).len() > 0 ==> !whitespace(trimmed_end(s).last()),
    decreases s.len(),
{
    if s.len() > 0 && whitespace(s.last()) {
        let rest = s.drop_last();
        lemma_trimmed_end(rest);
        let m = choose|n: int|
            0 <= n <= rest.len() && #[trigger] rest.take(n) == trimmed_end(rest) && forall|i: int|
                n <= i < rest.len() ==> whitespace(#[trigger] rest[i]);
        assert(s.take(m) =~= rest.take(m));
        assert forall|i: int| m <= i < s.len() implies whitespace(#[trigger] s[i]) by {
            if i < s.len() - 1 {
                assert(rest[i] == s[i]);
            }
        }
    } else {
        assert(s.take(s.len() as int) =~= s);
    }
}

/// Trimming cuts white space off both ends and nothing else: what is left is a part of the
/// text, all that is cut off is white space, and neither end of what is left is.
pub proof fn law_trimming_cuts_white_space_only(s: &str, inner: String)
    requires
        call_ensures(trim, (s,), inner),
    ensures
        exists|from: int, to: int|
            0 <= from <= to <= s@.len() && #[trigger] s@.subrange(from, to) == inner@ && (forall|
                i: int,
            |
                0 <= i < s@.len() && !(from <= i < to) ==> whitespace(#[trigger] s@[i])),
        inner@.len() > 0 ==> !whitespace(inner@[0]) && !whitespace(inner@.last()),
{
    let head = trimmed_start(s@);
    lemma_trimmed_start(s@);
    lemma_trimmed_end(head);
    let n = choose|n: int|
        0 <= n <= s@.len() && #[trigger] s@.skip(n) == head && forall|i: int|
            0 <= i < n ==> whitespace(#[trigger] s@[i]);
    let m = choose|m: int|
        0 <= m <= head.len() && #[trigger] head.take(m) == trimmed_end(head) && forall|i: int|
            m <= i < head.len() ==> whitespace(#[trigger] head[i]);
    assert(s@.subrange(n, n + m) =~= inner@);
    assert forall|i: int| 0 <= i < s@.len() && !(n <= i < n + m) implies whitespace(
        #[trigger] s@[i],
    ) by {
        if i >= n {
            assert(head[i - n] == s@[i]);
        }
    }
    if inner@.len() > 0 {
        assert(inner@[0] == head[0]);
    }
}

/// A text that neither starts nor ends in white space stays as it is.
pub proof fn law_text_without_blanks_stays(s: Seq<char>)
    requires
        s.len() > 0 ==> !whitespace(s[0]) && !whitespace(s.last()),
    ensures
        trimmed(s) == s,
{
}

/// A number in decimal is that of its tenth part with one more digit, and below ten that
/// digit alone.
pub proof fn law_decimals_grow_by_a_digit(n: u64, text: String, tenth: String)
    requires
        call_ensures(to_decimal, (n,), text),
        call_ensures(to_decimal, (n / 10,), tenth),
    ensures
        text@.len() > 0,
        text@.last() as int == 0x30 + n % 10,
        n < 10 ==> text@.len() == 1,
        n >= 10 ==> text@.drop_last() == tenth@,
{
    if n >= 10 {
        assert(text@.drop_last() =~= decimal(n as nat / 10));
    }
}

/// A padded number is its decimal form behind as many zeros as the width asks for, and
/// none where it is as wide already.
pub proof fn law_padding_is_zeros_in_front(n: u64, width: usize, text: String, digits: String)
    requires
        call_ensures(to_padded, (n, width), text),
        call_ensures(to_decimal, (n,), digits),
    ensures
        digits@.len() >= width ==> text@ == digits@,
        digits@.len() <= width ==> text@.len() == width && text@.skip(width - digits@.len())
            == digits@ && forall|i: int| 0 <= i < width - digits@.len() ==> #[trigger] text@[i] == '0',
{
    if digits@.len() <= width {
        assert(text@.skip(width - digits@.len()) =~= digits@);
    }
}

/// A number is read digit by digit: one more digit makes ten times the number and the
/// digit, as long as it fits, and anything else in its place makes no number. A plus sign
/// may stand in front and nowhere else.
pub proof fn law_numbers_are_read_digit_by_digit(
    before: &[char],
    all: &[char],
    c: char,
    prefix: Option<u32>,
    number: Option<u32>,
)
    requires
        all@ == before@.push(c),
        call_ensures(parse_u32, (before,), prefix),
        call_ensures(parse_u32, (all,), number),
    ensures
        !('0' <= c <= '9') ==> number is None,
        before@.len() == 0 && '0' <= c <= '9' ==> number == Some((c as int - 0x30) as u32),
        before@ == seq!['+'] && '0' <= c <= '9' ==> number == Some((c as int - 0x30) as u32),
        before@.len() > 0 && before@ != seq!['+'] && prefix is None ==> number is None,
        prefix matches Some(v) ==> '0' <= c <= '9' && v * 10 + (c as int - 0x30) <= u32::MAX
            ==> number == Some((v * 10 + (c as int - 0x30)) as u32),
        prefix matches Some(v) ==> v * 10 + (c as int - 0x30) > u32::MAX ==> number is None,
{
    let digits = unsigned_digits(all@);
    if before@.len() == 0 {
        if '0' <= c <= '9' {
            assert(digits =~= seq![c]);
            reveal_with_fuel(digits_value, 2);
            assert(digits.drop_last() =~= Seq::<char>::empty());
        } else if c == '+' {
            assert(digits.len() == 0);
        } else {
            assert(!is_digit(digits[0]));
        }
    } else {
        let shorter = unsigned_digits(before@);
        assert(all@[0] == before@[0]);
        assert(digits =~= shorter.push(c));
        assert(digits.drop_last() =~= shorter);
        assert(digits.last() == c);
        if !('0' <= c <= '9') {
            assert(!is_digit(digits[digits.len() - 1]));
        } else {
            if all_digits(shorter) {
                assert(all_digits(digits));
            } else {
                let i = choose|i: int| 0 <= i < shorter.len() && !is_digit(#[trigger] shorter[i]);
                assert(digits[i] == shorter[i]);
            }
            if shorter.len() == 0 {
                assert(before@ =~= seq!['+']);
                reveal_with_fuel(digits_value, 2);
            }
        }
    }
}

/// No text stands for a number unless it holds a digit.
pub proof fn law_empty_text_is_no_number(chars: &[char], number: Option<u32>)
    requires
        call_ensures(parse_u32, (chars,), number),
        chars@.len() == 0,
    ensures
        number is None,
{
}

/// Where two texts first differ: the length of what they share in front.
pub open spec fn shared(a: Seq<char>, b: Seq<char>, k: int) -> bool {
    &&& 0 <= k <= a.len()
    &&& k <= b.len()
    &&& forall|i: int| 0 <= i < k ==> #[trigger] a[i] == b[i]
}

proof fn lemma_text_less_at(a: Seq<char>, b: Seq<char>, k: int)
    requires
        shared(a, b, k),
        k == a.len() || k == b.len() || a[k] != b[k],
    ensures
        text_less(a, b) <==> k < b.len() && (k == a.len() || a[k] < b[k]),
    decreases a.len(),
{
    if k > 0 {
        assert(a[0] == b[0]);
        assert forall|i: int| 0 <= i < k - 1 implies #[trigger] a.drop_first()[i]
            == b.drop_first()[i] by {
            assert(a[i + 1] == b[i + 1]);
        }
        lemma_text_less_at(a.drop_first(), b.drop_first(), k - 1);
    }
}

/// Texts are ordered by the first character in which they differ, and what is shorter
/// comes first where there is none.
pub proof fn law_first_difference_decides_the_order(a: &str, b: &str, k: int, before: bool)
    requires
        call_ensures(text_before, (a, b), before),
        shared(a@, b@, k),
        k == a@.len() || k == b@.len() || a@[k] != b@[k],
    ensures
        before <==> k < b@.len() && (k == a@.len() || a@[k] < b@[k]),
{
    lemma_text_less_at(a@, b@, k);
}

/// A text is found in whatever is put around it.
pub proof fn law_text_is_found_inside(
    front: Seq<char>,
    needle: &str,
    back: Seq<char>,
    s: &str,
    found: bool,
)
    requires
        call_ensures(contains_text, (s, needle), found),
        s@ == front + needle@ + back,
    ensures
        found,
{
    let at = front.len() as int;
    assert(s@.subrange(at, at + needle@.len()) =~= needle@);
}

/// What is found stands in the text, somewhere.
pub proof fn law_what_is_found_is_there(s: &str, needle: &str, found: bool)
    requires
        call_ensures(contains_text, (s, needle), found),
    ensures
        found ==> exists|front: Seq<char>, back: Seq<char>|
            s@ == #[trigger] (front + needle@ + back),
{
    if found {
        let i = choose|i: int|
            0 <= i <= s@.len() - needle@.len() && #[trigger] s@.subrange(i, i + needle@.len())
                == needle@;
        assert(s@ =~= s@.take(i) + needle@ + s@.skip(i + needle@.len()));
    }
}

/// A text starts with a prefix if and only if the prefix is no longer and all its
/// characters are there.
pub proof fn law_prefixes_are_at_the_start(s: &str, prefix: &str, found: bool)
    requires
        call_ensures(starts_with, (s, prefix), found),
    ensures
        found <==> prefix@.len() <= s@.len() && forall|i: int|
            0 <= i < prefix@.len() ==> s@[i] == #[trigger] prefix@[i],
{
    if found {
        assert(s@.subrange(0, prefix@.len() as int) == prefix@);
    }
    if prefix@.len() <= s@.len() && forall|i: int|
        0 <= i < prefix@.len() ==> s@[i] == #[trigger] prefix@[i] {
        assert(s@.subrange(0, prefix@.len() as int) =~= prefix@);
    }
}

/// Each byte has two hexadecimal digits, the higher one first, with small letters.
pub proof fn law_bytes_have_two_hex_digits(bytes: &[u8], text: String, i: int)
    requires
        call_ensures(to_hex, (bytes,), text),
        0 <= i < bytes@.len(),
    ensures
        text@.len() == 2 * bytes@.len(),
        bytes@[i] / 16 < 10 ==> text@[2 * i] as int == 0x30 + bytes@[i] / 16,
        bytes@[i] / 16 >= 10 ==> text@[2 * i] as int == 0x61 + (bytes@[i] / 16 - 10),
        bytes@[i] % 16 < 10 ==> text@[2 * i + 1] as int == 0x30 + bytes@[i] % 16,
        bytes@[i] % 16 >= 10 ==> text@[2 * i + 1] as int == 0x61 + (bytes@[i] % 16 - 10),
{
    assert((2 * i) / 2 == i && (2 * i) % 2 == 0);
    assert((2 * i + 1) / 2 == i && (2 * i + 1) % 2 == 1);
}

/// Copies are as many as the texts and the same, one by one.
pub proof fn law_copies_are_the_same(
    items: Vec<String>,
    copies: Vec<String>,
    item: Option<String>,
    copy: Option<String>,
    i: int,
)
    requires
        call_ensures(clone_strings, (&items,), copies),
        call_ensures(clone_option, (&item,), copy),
    ensures
        copies@.len() == items@.len(),
        0 <= i < items@.len() ==> copies@[i]@ == items@[i]@,
        copy is Some <==> item is Some,
        copy is Some ==> copy->0@ == item->0@,
{
    assert(views(copies@).len() == views(items@).len());
    if 0 <= i < items@.len() {
        assert(views(copies@)[i] == views(items@)[i]);
    }
}

/// Sorting loses no text and makes none: each occurs as often as before. None comes before
/// one that stands in front of it.
pub proof fn law_sorting_orders_the_texts(
    items: Vec<String>,
    sorted: Vec<String>,
    text: Seq<char>,
    i: int,
    j: int,
    earlier: &str,
    later: &str,
    before: bool,
)
    requires
        call_ensures(sorted_texts, (items,), sorted),
        0 <= i < j < sorted@.len(),
        earlier@ == sorted@[i]@,
        later@ == sorted@[j]@,
        call_ensures(text_before, (later, earlier), before),
    ensures
        !before,
        sorted@.len() == items@.len(),
        views(sorted@).to_multiset().count(text) == views(items@).to_multiset().count(text),
{
    vstd::seq_lib::to_multiset_len(views(sorted@));
    vstd::seq_lib::to_multiset_len(views(items@));
    assert(views(sorted@)[i] == sorted@[i]@ && views(sorted@)[j] == sorted@[j]@);
    assert(views(sorted@).len() == views(items@).len());
}

proof fn lemma_word_len_at(s: Seq<char>, n: int)
    requires
        0 <= n <= s.len(),
        forall|i: int| 0 <= i < n ==> !whitespace(#[trigger] s[i]),
        n < s.len() ==> whitespace(s[n]),
    ensures
        word_len(s) == n,
    decreases s.len(),
{
    if n > 0 {
        assert(!whitespace(s[0]));
        assert forall|i: int| 0 <= i < n - 1 implies !whitespace(#[trigger] s.drop_first()[i]) by {
            assert(!whitespace(s[i + 1]));
        }
        lemma_word_len_at(s.drop_first(), n - 1);
    }
}

/// The words of a text are what stands between white space: a run of other characters in
/// front is a word, and white space in front is none.
pub proof fn law_words_are_separated_by_white_space(word: Seq<char>, rest: Seq<char>, c: char)
    requires
        forall|i: int| 0 <= i < word.len() ==> !whitespace(#[trigger] word[i]),
        whitespace(c),
    ensures
        words(seq![c] + rest) == words(rest),
        word.len() > 0 ==> words(word) == seq![word],
        word.len() > 0 ==> words(word + (seq![c] + rest)) == seq![word] + words(rest),
        words(Seq::empty()).len() == 0,
{
    let tail = seq![c] + rest;
    assert(tail[0] == c);
    assert(tail.drop_first() =~= rest);
    if word.len() > 0 {
        assert(!whitespace(word[0]));
        lemma_word_len_at(word, word.len() as int);
        assert(word.take(word.len() as int) =~= word);
        assert(word.skip(word.len() as int) =~= Seq::<char>::empty());
        assert(words(word.skip(word.len() as int)).len() == 0);
        assert(words(word) =~= seq![word]);
        let all = word + tail;
        assert(all[0] == word[0]);
        assert(all[word.len() as int] == c);
        assert forall|i: int| 0 <= i < word.len() implies !whitespace(#[trigger] all[i]) by {
            assert(all[i] == word[i]);
        }
        lemma_word_len_at(all, word.len() as int);
        assert(all.take(word.len() as int) =~= word);
        assert(all.skip(word.len() as int) =~= tail);
        assert(words(all) == seq![word] + words(tail));
        assert(words(tail) == words(rest));
    }
}

} // verus!
