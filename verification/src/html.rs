//! HTML escaping of text placed into pages and feeds.

use vstd::prelude::*;
use crate::text::{chars_of, push_all, string_of};

verus! {

/// The characters that escaping replaces by an entity.
pub open spec fn is_special(c: char) -> bool {
    c == '&' || c == '<' || c == '>' || c == '"' || c == '\'' || c == '`' || c == '{' || c == '}'
}

/// What one character becomes once escaped.
pub open spec fn escape_char(c: char) -> Seq<char> {
    if c == '&' {
        seq!['&', 'a', 'm', 'p', ';']
    } else if c == '<' {
        seq!['&', 'l', 't', ';']
    } else if c == '>' {
        seq!['&', 'g', 't', ';']
    } else if c == '"' {
        seq!['&', 'q', 'u', 'o', 't', ';']
    } else if c == '\'' {
        seq!['&', '#', '3', '9', ';']
    } else if c == '`' {
        seq!['&', '#', '9', '6', ';']
    } else if c == '{' {
        seq!['&', '#', '1', '2', '3', ';']
    } else if c == '}' {
        seq!['&', '#', '1', '2', '5', ';']
    } else {
        seq![c]
    }
}

/// `s` with each character escaped in turn.
pub open spec fn escaped(s: Seq<char>) -> Seq<char>
    decreases s.len(),
{
    if s.len() == 0 {
        seq![]
    } else {
        escaped(s.drop_last()) + escape_char(s.last())
    }
}

/// Escapes the characters `& < > " ' ` { }` of `input` as HTML entities.
pub fn escape_html(input: &str) -> (output: String)
    ensures
        output@ == escaped(input@),
{
    let chars = chars_of(input);
    let out = escape_chars(chars.as_slice());
    string_of(&out)
}

/// `escape_html` on a sequence of characters.
pub fn escape_chars(input: &[char]) -> (output: Vec<char>)
    ensures
        output@ == escaped(input@),
{
    let mut output: Vec<char> = Vec::new();
    let mut i: usize = 0;
    while i < input.len()
        invariant
            i <= input.len(),
            output@ == escaped(input@.take(i as int)),
        decreases input.len() - i,
    {
        let c = input[i];
        assert(input@.take(i + 1).drop_last() == input@.take(i as int));
        if c == '&' {
            let e = ['&', 'a', 'm', 'p', ';'];
            assert(e@ == escape_char(c));
            push_all(&mut output, &e);
        } else if c == '<' {
            let e = ['&', 'l', 't', ';'];
            assert(e@ == escape_char(c));
            push_all(&mut output, &e);
        } else if c == '>' {
            let e = ['&', 'g', 't', ';'];
            assert(e@ == escape_char(c));
            push_all(&mut output, &e);
        } else if c == '"' {
            let e = ['&', 'q', 'u', 'o', 't', ';'];
            assert(e@ == escape_char(c));
            push_all(&mut output, &e);
        } else if c == '\'' {
            let e = ['&', '#', '3', '9', ';'];
            assert(e@ == escape_char(c));
            push_all(&mut output, &e);
        } else if c == '`' {
            let e = ['&', '#', '9', '6', ';'];
            assert(e@ == escape_char(c));
            push_all(&mut output, &e);
        } else if c == '{' {
            let e = ['&', '#', '1', '2', '3', ';'];
            assert(e@ == escape_char(c));
            push_all(&mut output, &e);
        } else if c == '}' {
            let e = ['&', '#', '1', '2', '5', ';'];
            assert(e@ == escape_char(c));
            push_all(&mut output, &e);
        } else {
            output.push(c);
        }
        i = i + 1;
    }
    assert(input@.take(input.len() as int) == input@);
    output
}

/// Escaping a concatenation escapes each part: `escaped(a + b) == escaped(a) + escaped(b)`.
pub proof fn lemma_escaped_concat(a: Seq<char>, b: Seq<char>)
    ensures
        escaped(a + b) == escaped(a) + escaped(b),
    decreases b.len(),
{
    if b.len() == 0 {
        assert(a + b == a);
    } else {
        lemma_escaped_concat(a, b.drop_last());
        assert((a + b).drop_last() == a + b.drop_last());
    }
}

/// Escaped text holds no markup character: besides the `&` that opens an entity, none of
/// the escaped characters is left.
pub proof fn lemma_escaped_has_no_markup(s: Seq<char>)
    ensures
        forall|i: int|
            0 <= i < escaped(s).len() ==> #[trigger] escaped(s)[i] == '&' || !is_special(
                escaped(s)[i],
            ),
    decreases s.len(),
{
    if s.len() > 0 {
        lemma_escaped_has_no_markup(s.drop_last());
        let prev = escaped(s.drop_last());
        let e = escape_char(s.last());
        assert forall|i: int| 0 <= i < escaped(s).len() implies #[trigger] escaped(s)[i] == '&'
            || !is_special(escaped(s)[i]) by {
            if i < prev.len() {
                assert(escaped(s)[i] == prev[i]);
            } else {
                assert(escaped(s)[i] == e[i - prev.len()]);
            }
        }
    }
}

/// Text without any of the escaped characters is left as it is.
pub proof fn lemma_escaped_plain(s: Seq<char>)
    requires
        forall|i: int| 0 <= i < s.len() ==> !is_special(#[trigger] s[i]),
    ensures
        escaped(s) == s,
    decreases s.len(),
{
    if s.len() > 0 {
        lemma_escaped_plain(s.drop_last());
        assert(s.drop_last().push(s.last()) == s);
    }
}

/// Whether `s` begins with the entity that escaping writes for the special character `c`.
pub open spec fn starts_with_entity(s: Seq<char>, c: char) -> bool {
    &&& is_special(c)
    &&& escape_char(c).len() <= s.len()
    &&& s.take(escape_char(c).len() as int) == escape_char(c)
}

/// The special character whose entity begins `s`, looked for in the order
/// `& < > " ' ` { }`; `None` where `s` begins with no entity.
pub open spec fn leading_entity(s: Seq<char>) -> Option<char> {
    if starts_with_entity(s, '&') {
        Some('&')
    } else if starts_with_entity(s, '<') {
        Some('<')
    } else if starts_with_entity(s, '>') {
        Some('>')
    } else if starts_with_entity(s, '"') {
        Some('"')
    } else if starts_with_entity(s, '\'') {
        Some('\'')
    } else if starts_with_entity(s, '`') {
        Some('`')
    } else if starts_with_entity(s, '{') {
        Some('{')
    } else if starts_with_entity(s, '}') {
        Some('}')
    } else {
        None
    }
}

/// Escaped text read back, left to right: each of the entities
/// `&amp; &lt; &gt; &quot; &#39; &#96; &#123; &#125;` becomes its character again, and
/// every other character stays.
pub open spec fn unescaped(s: Seq<char>) -> Seq<char>
    decreases s.len(),
{
    if s.len() == 0 {
        seq![]
    } else {
        match leading_entity(s) {
            Some(c) => seq![c] + unescaped(s.skip(escape_char(c).len() as int)),
            None => seq![s[0]] + unescaped(s.skip(1)),
        }
    }
}

/// The entity of a special character `d` can begin the escaped form of `c` followed by
/// anything only where `d` is `c`.
proof fn lemma_entity_determines_char(c: char, d: char, t: Seq<char>)
    requires
        starts_with_entity(escape_char(c) + t, d),
    ensures
        c == d,
{
    let s = escape_char(c) + t;
    let e = escape_char(d);
    let n = e.len() as int;
    assert(s.take(n) == e);
    assert(s[0] == e[0]) by {
        assert(s.take(n)[0] == s[0]);
    }
    assert(s[1] == e[1]) by {
        assert(s.take(n)[1] == s[1]);
    }
    assert(s[2] == e[2]) by {
        assert(s.take(n)[2] == s[2]);
    }
    if n >= 5 {
        assert(s[4] == e[4]) by {
            assert(s.take(n)[4] == s[4]);
        }
    }
}

/// Where the escaped form of `c` begins a text, that text begins with the entity of `c`
/// if `c` is special, and with no entity otherwise.
proof fn lemma_leading_entity_of_escaped(c: char, t: Seq<char>)
    ensures
        leading_entity(escape_char(c) + t) == (if is_special(c) {
            Some(c)
        } else {
            None::<char>
        }),
{
    let s = escape_char(c) + t;
    if starts_with_entity(s, '&') {
        lemma_entity_determines_char(c, '&', t);
    }
    if starts_with_entity(s, '<') {
        lemma_entity_determines_char(c, '<', t);
    }
    if starts_with_entity(s, '>') {
        lemma_entity_determines_char(c, '>', t);
    }
    if starts_with_entity(s, '"') {
        lemma_entity_determines_char(c, '"', t);
    }
    if starts_with_entity(s, '\'') {
        lemma_entity_determines_char(c, '\'', t);
    }
    if starts_with_entity(s, '`') {
        lemma_entity_determines_char(c, '`', t);
    }
    if starts_with_entity(s, '{') {
        lemma_entity_determines_char(c, '{', t);
    }
    if starts_with_entity(s, '}') {
        lemma_entity_determines_char(c, '}', t);
    }
    if is_special(c) {
        assert(s.take(escape_char(c).len() as int) == escape_char(c));
        assert(starts_with_entity(s, c));
    }
}

/// Reading back the escaped form of one character gives that character.
proof fn lemma_unescaped_escape_char(c: char, t: Seq<char>)
    ensures
        unescaped(escape_char(c) + t) == seq![c] + unescaped(t),
{
    let s = escape_char(c) + t;
    lemma_leading_entity_of_escaped(c, t);
    assert(s.skip(escape_char(c).len() as int) == t);
    if !is_special(c) {
        assert(s[0] == c);
        assert(s.skip(1) == t);
    }
}

/// Escaping one character and then the rest: `escaped(s) == escape_char(s[0]) +
/// escaped(s.drop_first())`.
proof fn lemma_escaped_front(s: Seq<char>)
    requires
        s.len() > 0,
    ensures
        escaped(s) == escape_char(s[0]) + escaped(s.drop_first()),
{
    let head = seq![s[0]];
    lemma_escaped_concat(head, s.drop_first());
    assert(head + s.drop_first() == s);
    assert(head.drop_last() == Seq::<char>::empty());
    assert(head.last() == s[0]);
    assert(escaped(head.drop_last()) == Seq::<char>::empty());
    assert(Seq::<char>::empty() + escape_char(s[0]) == escape_char(s[0]));
    assert(escaped(head) == escape_char(s[0]));
}

/// Escaping can be undone: reading back the entities of escaped text gives the text again.
pub proof fn lemma_unescape_escaped(s: Seq<char>)
    ensures
        unescaped(escaped(s)) == s,
    decreases s.len(),
{
    if s.len() > 0 {
        lemma_escaped_front(s);
        lemma_unescaped_escape_char(s[0], escaped(s.drop_first()));
        lemma_unescape_escaped(s.drop_first());
        assert(seq![s[0]] + s.drop_first() == s);
    }
}

/// Escaping is injective: two texts with the same escaped form are the same text.
pub proof fn lemma_escaped_injective(a: Seq<char>, b: Seq<char>)
    requires
        escaped(a) == escaped(b),
    ensures
        a == b,
{
    lemma_unescape_escaped(a);
    lemma_unescape_escaped(b);
}

} // verus!
