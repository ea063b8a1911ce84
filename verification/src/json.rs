//! Text in JSON: strings with their escapes, and lists.

use vstd::prelude::*;
use vstd::string::*;

verus! {

/// How a character is written in a JSON string: quotes and backslashes behind a
/// backslash, control characters by their short escape or their number, and all
/// others as they are.
pub open spec fn escaped_char(c: char) -> Seq<char> {
    match c {
        '"' => seq!['\\', '"'],
        '\\' => seq!['\\', '\\'],
        '\u{8}' => seq!['\\', 'b'],
        '\u{9}' => seq!['\\', 't'],
        '\u{a}' => seq!['\\', 'n'],
        '\u{c}' => seq!['\\', 'f'],
        '\u{d}' => seq!['\\', 'r'],
        _ => if ' ' > c {
            seq![
                '\\',
                'u',
                '0',
                '0',
                crate::text::hex_char(c as nat / 16),
                crate::text::hex_char(c as nat % 16),
            ]
        } else {
            seq![c]
        },
    }
}

/// How a text is written inside a JSON string.
pub open spec fn escaped(s: Seq<char>) -> Seq<char>
    decreases s.len(),
{
    if s.len() == 0 {
        Seq::empty()
    } else {
        escaped_char(s[0]) + escaped(s.drop_first())
    }
}

/// The JSON string that stands for a text.
pub open spec fn quoted(s: Seq<char>) -> Seq<char> {
    seq!['"'] + escaped(s) + seq!['"']
}

/// Calls `serde_json::to_string` on a text, which it always writes: between quotes, and
/// with each character escaped as [`escaped_char`] says.
#[verifier::external_body]
pub(crate) fn quote(s: &str) -> (text: String)
    ensures
        text@ == quoted(s@),
{
    serde_json::to_string(s).expect("text always has a JSON form")
}

/// Texts one after the other, with a comma between each two.
pub open spec fn comma_separated(items: Seq<Seq<char>>) -> Seq<char>
    decreases items.len(),
{
    if items.len() == 0 {
        Seq::empty()
    } else if items.len() == 1 {
        items[0]
    } else {
        comma_separated(items.drop_last()) + ","@ + items.last()
    }
}

/// The JSON array of texts.
pub open spec fn text_array(items: Seq<Seq<char>>) -> Seq<char> {
    "["@ + comma_separated(items.map_values(|item: Seq<char>| quoted(item))) + "]"@
}

/// Put `item` behind `text`, which lists the `count` items before it.
pub(crate) fn append_item(text: &mut String, count: usize, item: &str, items: Ghost<Seq<Seq<char>>>)
    requires
        count < items@.len(),
        old(text)@ == comma_separated(items@.take(count as int)),
        item@ == items@[count as int],
    ensures
        final(text)@ == comma_separated(items@.take(count as int + 1)),
{
    proof {
        let head = items@.take(count as int + 1);
        assert(head.drop_last() =~= items@.take(count as int));
        assert(head.last() == item@);
        if count == 0 {
            assert(old(text)@ + item@ =~= item@);
        }
    }
    if count > 0 {
        text.append(",");
    }
    text.append(item);
}

/// The JSON array of texts.
pub fn to_text_array(items: &Vec<String>) -> (text: String)
    ensures
        text@ == text_array(crate::text::views(items@)),
{
    let ghost all = crate::text::views(items@).map_values(|item: Seq<char>| quoted(item));
    let mut inner = String::new();
    let mut i: usize = 0;
    assert(all.take(0) =~= Seq::<Seq<char>>::empty());
    while i < items.len()
        invariant
            i <= items@.len(),
            all == crate::text::views(items@).map_values(|item: Seq<char>| quoted(item)),
            inner@ == comma_separated(all.take(i as int)),
        decreases items@.len() - i,
    {
        let item = quote(items[i].as_str());
        append_item(&mut inner, i, item.as_str(), Ghost(all));
        i += 1;
    }
    assert(all.take(i as int) =~= all);
    let mut text = "[".to_owned();
    text.append(inner.as_str());
    text.append("]");
    text
}

/// What a character behind a backslash stands for, where it is a short escape.
pub open spec fn short_escape(c: char) -> Option<char> {
    match c {
        '"' => Some('"'),
        '\\' => Some('\\'),
        '/' => Some('/'),
        'b' => Some('\u{8}'),
        't' => Some('\u{9}'),
        'n' => Some('\u{a}'),
        'f' => Some('\u{c}'),
        'r' => Some('\u{d}'),
        _ => None,
    }
}

/// The value of a hexadecimal digit.
pub open spec fn hex_value(c: char) -> Option<nat> {
    if '0' <= c && c <= '9' {
        Some((c as nat - 48) as nat)
    } else if 'a' <= c && c <= 'f' {
        Some((c as nat - 87) as nat)
    } else if 'A' <= c && c <= 'F' {
        Some((c as nat - 55) as nat)
    } else {
        None
    }
}

/// The number that four hexadecimal digits stand for.
pub open spec fn code_unit(s: Seq<char>) -> Option<nat> {
    if s.len() < 4 {
        None
    } else {
        match (hex_value(s[0]), hex_value(s[1]), hex_value(s[2]), hex_value(s[3])) {
            (Some(a), Some(b), Some(c), Some(d)) => Some(4096 * a + 256 * b + 16 * c + d),
            _ => None,
        }
    }
}

/// A character before what follows it, if that can be read.
pub open spec fn read_on(c: char, rest: Option<Seq<char>>) -> Option<Seq<char>> {
    match rest {
        Some(s) => Some(seq![c] + s),
        None => None,
    }
}

/// What the inside of a JSON string stands for; nothing where it is none. Characters
/// that are written as two numbers are left out: none is written so here.
pub open spec fn unescaped(s: Seq<char>) -> Option<Seq<char>>
    decreases s.len(),
{
    if s.len() == 0 {
        Some(Seq::empty())
    } else if s[0] == '"' || ' ' > s[0] {
        None
    } else if s[0] != '\\' {
        read_on(s[0], unescaped(s.skip(1)))
    } else if s.len() < 2 {
        None
    } else if s[1] == 'u' {
        match code_unit(s.skip(2)) {
            Some(code) => if code >= 0xd800 && 0xe000 > code {
                None
            } else {
                read_on(code as char, unescaped(s.skip(6)))
            },
            None => None,
        }
    } else {
        match short_escape(s[1]) {
            Some(c) => read_on(c, unescaped(s.skip(2))),
            None => None,
        }
    }
}

proof fn lemma_hex_value(d: nat)
    requires
        d < 16,
    ensures
        hex_value(crate::text::hex_char(d)) == Some(d),
{
    let c = crate::text::hex_char(d);
    if d < 10 {
        assert(c as int == 48 + d);
    } else {
        assert(c as int == 87 + d);
    }
}

proof fn lemma_escaped_control(c: char)
    requires
        escaped_char(c).len() == 6,
    ensures
        code_unit(escaped_char(c).skip(2)) == Some(c as nat),
        32 > c as nat,
        (c as nat) as char == c,
{
    lemma_hex_value(0);
    lemma_hex_value(c as nat / 16);
    lemma_hex_value(c as nat % 16);
    let digits = escaped_char(c).skip(2);
    assert(digits =~= seq![
        '0',
        '0',
        crate::text::hex_char(c as nat / 16),
        crate::text::hex_char(c as nat % 16),
    ]);
    assert('0' == crate::text::hex_char(0));
}

/// A JSON string is read as the text that it was written for, whatever the text holds.
pub proof fn law_quoted_reads_back(s: Seq<char>)
    ensures
        quoted(s) == seq!['"'] + escaped(s) + seq!['"'],
        unescaped(escaped(s)) == Some(s),
    decreases s.len(),
{
    if s.len() > 0 {
        let c = s[0];
        let head = escaped_char(c);
        let tail = escaped(s.drop_first());
        let text = head + tail;
        law_quoted_reads_back(s.drop_first());
        assert(text.skip(head.len() as int) =~= tail);
        assert(seq![c] + s.drop_first() =~= s);
        assert(text[0] == head[0]);
        if head.len() > 1 {
            assert(text[1] == head[1]);
        }
        assert(unescaped(tail) == Some(s.drop_first()));
        if head.len() == 6 {
            lemma_escaped_control(c);
            assert(text.skip(2).take(4) =~= head.skip(2));
            assert(code_unit(text.skip(2)) == code_unit(head.skip(2)));
        } else if head.len() == 2 {
            assert(short_escape(text[1]) == Some(c));
        } else {
            assert(text.skip(1) == tail);
        }
    }
}

/// A hexadecimal digit stands for the value that it was written for.
pub proof fn law_hex_digits_read_back(d: nat)
    requires
        d < 16,
    ensures
        hex_value(crate::text::hex_char(d)) == Some(d),
{
    lemma_hex_value(d);
}

/// A text in JSON stands between quotes, holds no other quote that is not escaped, and
/// reads back as the text. Texts in an array stand in order, with commas between them.
pub proof fn law_text_arrays_hold_their_texts(items: Vec<String>, text: String)
    requires
        call_ensures(to_text_array, (&items,), text),
    ensures
        items@.len() == 0 ==> text@ == seq!['[', ']'],
        items@.len() == 1 ==> text@ == seq!['[', '"'] + escaped(items@[0]@) + seq!['"', ']'],
        items@.len() == 2 ==> text@ == seq!['[', '"'] + escaped(items@[0]@) + seq!['"', ',', '"']
            + escaped(items@[1]@) + seq!['"', ']'],
{
    reveal_strlit("[");
    reveal_strlit("]");
    reveal_strlit(",");
    reveal_with_fuel(comma_separated, 3);
    let all = crate::text::views(items@).map_values(|item: Seq<char>| quoted(item));
    assert(all.len() == items@.len());
    if items@.len() == 0 {
        assert(text@ =~= seq!['[', ']']);
    } else if items@.len() == 1 {
        assert(all[0] == quoted(items@[0]@));
        assert(text@ =~= seq!['[', '"'] + escaped(items@[0]@) + seq!['"', ']']);
    } else if items@.len() == 2 {
        assert(all[0] == quoted(items@[0]@));
        assert(all[1] == quoted(items@[1]@));
        assert(all.drop_last()[0] == all[0]);
        assert(text@ =~= seq!['[', '"'] + escaped(items@[0]@) + seq!['"', ',', '"'] + escaped(
            items@[1]@,
        ) + seq!['"', ']']);
    }
}

/// Lists grow at their end: one more text comes behind a comma, if there is any before it.
pub proof fn law_lists_grow_at_their_end(items: Seq<Seq<char>>, item: Seq<char>)
    ensures
        items.len() == 0 ==> comma_separated(items.push(item)) == item,
        items.len() > 0 ==> comma_separated(items.push(item)) == comma_separated(items)
            + seq![','] + item,
{
    reveal_strlit(",");
    assert(","@ =~= seq![',']);
    assert(items.push(item).drop_last() =~= items);
}

} // verus!
