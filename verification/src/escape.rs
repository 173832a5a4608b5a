//! XML text escaping.
//!
//! File paths and file contents are escaped before they are put between XML
//! tags, so that text containing markup characters cannot corrupt the
//! document around it.  `escaped` says character by character what the
//! escaped form is; `unescaped` is the decoder's reading of such text, and
//! the round-trip lemma shows that escaping loses nothing.

use vstd::prelude::*;

verus! {

/// The escaped form of one character: the five XML metacharacters and the
/// carriage return become character entities, everything else stays itself.
pub open spec fn esc_char(c: char) -> Seq<char> {
    if c == '&' {
        seq!['&', 'a', 'm', 'p', ';']
    } else if c == '<' {
        seq!['&', 'l', 't', ';']
    } else if c == '>' {
        seq!['&', 'g', 't', ';']
    } else if c == '\'' {
        seq!['&', 'a', 'p', 'o', 's', ';']
    } else if c == '"' {
        seq!['&', 'q', 'u', 'o', 't', ';']
    } else if c == '\r' {
        seq!['&', '#', '1', '3', ';']
    } else {
        seq![c]
    }
}

/// The escaped form of a text: each character replaced by its escaped form.
pub open spec fn escaped(s: Seq<char>) -> Seq<char>
    decreases s.len(),
{
    if s.len() == 0 {
        Seq::empty()
    } else {
        esc_char(s[0]) + escaped(s.drop_first())
    }
}

/// A decoder's reading of escaped text: a recognised character entity is
/// decoded, any other character is taken as itself.
pub open spec fn unescaped(s: Seq<char>) -> Seq<char>
    decreases s.len(),
{
    if s.len() == 0 {
        Seq::<char>::empty()
    } else if s.len() >= 5 && s.subrange(0, 5) == seq!['&', 'a', 'm', 'p', ';'] {
        seq!['&'] + unescaped(s.skip(5))
    } else if s.len() >= 4 && s.subrange(0, 4) == seq!['&', 'l', 't', ';'] {
        seq!['<'] + unescaped(s.skip(4))
    } else if s.len() >= 4 && s.subrange(0, 4) == seq!['&', 'g', 't', ';'] {
        seq!['>'] + unescaped(s.skip(4))
    } else if s.len() >= 6 && s.subrange(0, 6) == seq!['&', 'a', 'p', 'o', 's', ';'] {
        seq!['\''] + unescaped(s.skip(6))
    } else if s.len() >= 6 && s.subrange(0, 6) == seq!['&', 'q', 'u', 'o', 't', ';'] {
        seq!['"'] + unescaped(s.skip(6))
    } else if s.len() >= 5 && s.subrange(0, 5) == seq!['&', '#', '1', '3', ';'] {
        seq!['\r'] + unescaped(s.skip(5))
    } else {
        seq![s[0]] + unescaped(s.skip(1))
    }
}

/// Relies on quick_xml's `escape::escape`: it replaces `<`, `>`, `&`, `'`,
/// `"` and the carriage return with their character entities and leaves
/// every other character unchanged.
#[verifier::external_body]
pub(crate) fn xml_escape(s: &str) -> (r: String)
    ensures
        r@ == escaped(s@),
{
    quick_xml::escape::escape(s).into_owned()
}

/// Escaping then decoding gives back the original text: the XML produced
/// from a file's path and content carries that text exactly.
pub proof fn lemma_escape_round_trip(s: Seq<char>)
    ensures
        unescaped(escaped(s)) == s,
    decreases s.len(),
{
    if s.len() == 0 {
        assert(unescaped(escaped(s)) =~= s);
    } else {
        let c = s[0];
        let e = esc_char(c);
        let rest = escaped(s.drop_first());
        lemma_escape_round_trip(s.drop_first());
        assert(escaped(s) == e + rest);
        let w = e + rest;
        assert(w.len() == e.len() + rest.len());
        assert(forall|t: int| 0 <= t < e.len() ==> w[t] == e[t]);
        if c == '&' {
            assert(w.subrange(0, 5) =~= e);
            assert(w.skip(5) =~= rest);
            assert(unescaped(w) =~= seq![c] + s.drop_first());
        } else if c == '<' {
            assert(w[1] == 'l');
            assert(w.len() >= 5 ==> w.subrange(0, 5)[1] == 'l');
            assert(w.subrange(0, 4) =~= e);
            assert(w.skip(4) =~= rest);
            assert(unescaped(w) =~= seq![c] + s.drop_first());
        } else if c == '>' {
            assert(w[1] == 'g');
            assert(w.len() >= 5 ==> w.subrange(0, 5)[1] == 'g');
            assert(w.subrange(0, 4) =~= e);
            assert(w.skip(4) =~= rest);
            assert(unescaped(w) =~= seq![c] + s.drop_first());
        } else if c == '\'' {
            assert(w[1] == 'a' && w[2] == 'p');
            assert(w.len() >= 5 ==> w.subrange(0, 5)[2] == 'p');
            assert(w.subrange(0, 4)[1] == 'a');
            assert(w.subrange(0, 6) =~= e);
            assert(w.skip(6) =~= rest);
            assert(unescaped(w) =~= seq![c] + s.drop_first());
        } else if c == '"' {
            assert(w[1] == 'q');
            assert(w.len() >= 5 ==> w.subrange(0, 5)[1] == 'q');
            assert(w.subrange(0, 4)[1] == 'q');
            assert(w.subrange(0, 6) =~= e);
            assert(w.skip(6) =~= rest);
            assert(unescaped(w) =~= seq![c] + s.drop_first());
        } else if c == '\r' {
            assert(w[1] == '#');
            assert(w.subrange(0, 5) =~= e);
            assert(w.subrange(0, 4)[1] == '#');
            assert(w.skip(5) =~= rest);
            assert(unescaped(w) =~= seq![c] + s.drop_first());
        } else {
            assert(w[0] == c);
            assert(w.len() >= 4 ==> w.subrange(0, 4)[0] == c);
            assert(w.len() >= 5 ==> w.subrange(0, 5)[0] == c);
            assert(w.len() >= 6 ==> w.subrange(0, 6)[0] == c);
            assert(w.skip(1) =~= rest);
            assert(unescaped(w) =~= seq![c] + s.drop_first());
        }
        assert(seq![c] + s.drop_first() =~= s);
    }
}

/// Escaped text holds no raw markup character: no `<`, no `>`, no `"`, so
/// it can neither open nor close an element nor break an attribute value.
pub proof fn lemma_escaped_no_markup(s: Seq<char>, i: int)
    requires
        0 <= i < escaped(s).len(),
    ensures
        escaped(s)[i] != '<',
        escaped(s)[i] != '>',
        escaped(s)[i] != '"',
    decreases s.len(),
{
    if s.len() > 0 {
        let e = esc_char(s[0]);
        let rest = escaped(s.drop_first());
        assert(escaped(s) == e + rest);
        if i < e.len() {
        } else {
            lemma_escaped_no_markup(s.drop_first(), i - e.len());
            assert(escaped(s)[i] == rest[i - e.len()]);
        }
    }
}

} // verus!
