//! Text escaping: HTML-escaping of plain text (with CRLF normalization), the
//! lighter quote-escaping used inside attribute values, and CSS identifier
//! escaping. The HTML escaping is proved to round-trip through a standard
//! entity decoder.

use vstd::prelude::*;
use crate::strutil::push_char;

verus! {

// ---------------------------------------------------------------------------
// HTML text escaping
// ---------------------------------------------------------------------------

/// How one character of plain text is rendered inside HTML: the five
/// significant characters become entities, everything else stands as itself.
pub open spec fn escape_char(c: char) -> Seq<char> {
    if c == '&' {
        seq!['&', 'a', 'm', 'p', ';']
    } else if c == '<' {
        seq!['&', 'l', 't', ';']
    } else if c == '>' {
        seq!['&', 'g', 't', ';']
    } else if c == '"' {
        seq!['&', 'q', 'u', 'o', 't', ';']
    } else if c == '\'' {
        seq!['&', '#', 'x', '2', '7', ';']
    } else {
        seq![c]
    }
}

/// HTML-escapes every character of `s`.
pub open spec fn escape_chars(s: Seq<char>) -> Seq<char>
    decreases s.len(),
{
    if s.len() == 0 {
        Seq::empty()
    } else {
        escape_char(s[0]) + escape_chars(s.skip(1))
    }
}

/// Replaces every CRLF pair by a bare LF; lone characters are kept.
pub open spec fn normalize_newlines(s: Seq<char>) -> Seq<char>
    decreases s.len(),
{
    if s.len() == 0 {
        Seq::empty()
    } else if s.len() >= 2 && s[0] == '\r' && s[1] == '\n' {
        seq!['\n'] + normalize_newlines(s.skip(2))
    } else {
        seq![s[0]] + normalize_newlines(s.skip(1))
    }
}

/// What escaping plain text produces: CRLF normalization, then entity escaping.
pub open spec fn escaped_text(s: Seq<char>) -> Seq<char> {
    escape_chars(normalize_newlines(s))
}

/// Appends the escaped form of one character.
pub fn push_escaped_char(out: &mut String, c: char)
    ensures
        final(out)@ == old(out)@ + escape_char(c),
{
    if c == '&' {
        push_char(out, '&');
        push_char(out, 'a');
        push_char(out, 'm');
        push_char(out, 'p');
        push_char(out, ';');
    } else if c == '<' {
        push_char(out, '&');
        push_char(out, 'l');
        push_char(out, 't');
        push_char(out, ';');
    } else if c == '>' {
        push_char(out, '&');
        push_char(out, 'g');
        push_char(out, 't');
        push_char(out, ';');
    } else if c == '"' {
        push_char(out, '&');
        push_char(out, 'q');
        push_char(out, 'u');
        push_char(out, 'o');
        push_char(out, 't');
        push_char(out, ';');
    } else if c == '\'' {
        push_char(out, '&');
        push_char(out, '#');
        push_char(out, 'x');
        push_char(out, '2');
        push_char(out, '7');
        push_char(out, ';');
    } else {
        push_char(out, c);
    }
    proof {
        assert(final(out)@ =~= old(out)@ + escape_char(c));
    }
}

/// `escape_chars` distributes over a head character.
pub proof fn lemma_escape_cons(c: char, rest: Seq<char>)
    ensures
        escape_chars(seq![c] + rest) == escape_char(c) + escape_chars(rest),
{
    let s = seq![c] + rest;
    assert(s.len() >= 1);
    assert(s[0] == c);
    assert(s.skip(1) =~= rest);
    assert(escape_chars(s) == escape_char(c) + escape_chars(rest));
}

/// Appends the HTML-escaped, newline-normalized form of `s` to `out`.
pub fn append_escaped_text(out: &mut String, s: &str)
    ensures
        final(out)@ == old(out)@ + escaped_text(s@),
{
    let n = s.unicode_len();
    let mut i: usize = 0;
    proof {
        assert(s@.skip(0) =~= s@);
    }
    while i < n
        invariant
            n == s@.len(),
            i <= n,
            old(out)@ + escaped_text(s@) == out@ + escape_chars(normalize_newlines(s@.skip(i as int))),
        decreases n - i,
    {
        let c = s.get_char(i);
        let ghost suffix = s@.skip(i as int);
        if c == '\r' && i + 1 < n && s.get_char(i + 1) == '\n' {
            push_char(out, '\n');
            proof {
                assert(suffix.len() >= 2 && suffix[0] == '\r' && suffix[1] == '\n');
                assert(suffix.skip(2) =~= s@.skip(i + 2));
                assert(normalize_newlines(suffix) == seq!['\n'] + normalize_newlines(s@.skip(i + 2)));
                lemma_escape_cons('\n', normalize_newlines(s@.skip(i + 2)));
                assert(escape_char('\n') =~= seq!['\n']);
                assert(out@.push('\n') =~= out@ + seq!['\n']);
            }
            i = i + 2;
        } else {
            push_escaped_char(out, c);
            proof {
                assert(suffix.len() >= 1 && suffix[0] == c);
                assert(!(suffix.len() >= 2 && suffix[0] == '\r' && suffix[1] == '\n'));
                assert(suffix.skip(1) =~= s@.skip(i + 1));
                assert(normalize_newlines(suffix) == seq![c] + normalize_newlines(s@.skip(i + 1)));
                lemma_escape_cons(c, normalize_newlines(s@.skip(i + 1)));
            }
            i = i + 1;
        }
    }
    proof {
        assert(s@.skip(n as int) =~= Seq::<char>::empty());
        assert(normalize_newlines(Seq::<char>::empty()) =~= Seq::<char>::empty());
        assert(escape_chars(Seq::<char>::empty()) =~= Seq::<char>::empty());
        assert(out@ + Seq::<char>::empty() =~= out@);
    }
}

/// The HTML-escaped, newline-normalized form of `s` as a fresh string.
pub fn escape_text(s: &str) -> (r: String)
    ensures
        r@ == escaped_text(s@),
{
    let mut out = String::new();
    append_escaped_text(&mut out, s);
    proof {
        assert(Seq::<char>::empty() + escaped_text(s@) =~= escaped_text(s@));
    }
    out
}

// ---------------------------------------------------------------------------
// Attribute value escaping: only double quotes are rewritten
// ---------------------------------------------------------------------------

/// How one character is rendered inside a double-quoted attribute value.
pub open spec fn escape_attr_char(c: char) -> Seq<char> {
    if c == '"' {
        seq!['&', 'q', 'u', 'o', 't', ';']
    } else {
        seq![c]
    }
}

/// Quote-escapes every character of an attribute value.
pub open spec fn escape_attr_chars(s: Seq<char>) -> Seq<char>
    decreases s.len(),
{
    if s.len() == 0 {
        Seq::empty()
    } else {
        escape_attr_char(s[0]) + escape_attr_chars(s.skip(1))
    }
}

/// Appends the quote-escaped form of an attribute value to `out`.
pub fn append_escaped_attr(out: &mut String, s: &str)
    ensures
        final(out)@ == old(out)@ + escape_attr_chars(s@),
{
    let n = s.unicode_len();
    let mut i: usize = 0;
    proof {
        assert(s@.skip(0) =~= s@);
    }
    while i < n
        invariant
            n == s@.len(),
            i <= n,
            old(out)@ + escape_attr_chars(s@) == out@ + escape_attr_chars(s@.skip(i as int)),
        decreases n - i,
    {
        let c = s.get_char(i);
        let ghost suffix = s@.skip(i as int);
        let ghost before = out@;
        if c == '"' {
            push_char(out, '&');
            push_char(out, 'q');
            push_char(out, 'u');
            push_char(out, 'o');
            push_char(out, 't');
            push_char(out, ';');
        } else {
            push_char(out, c);
        }
        proof {
            assert(out@ =~= before + escape_attr_char(c));
            assert(suffix.len() >= 1 && suffix[0] == c);
            assert(suffix.skip(1) =~= s@.skip(i + 1));
            assert(escape_attr_chars(suffix) == escape_attr_char(c) + escape_attr_chars(
                s@.skip(i + 1),
            ));
        }
        i = i + 1;
    }
    proof {
        assert(s@.skip(n as int) =~= Seq::<char>::empty());
        assert(escape_attr_chars(Seq::<char>::empty()) =~= Seq::<char>::empty());
        assert(out@ + Seq::<char>::empty() =~= out@);
    }
}

// ---------------------------------------------------------------------------
// Conceptual HTML entity decoding, and the round-trip law
// ---------------------------------------------------------------------------

/// `s` starts with the pattern `p`.
pub open spec fn begins(s: Seq<char>, p: Seq<char>) -> bool {
    s.len() >= p.len() && s.take(p.len() as int) =~= p
}

/// A standard HTML entity decoder, restricted to the five entities the escaper
/// emits: each recognized entity is decoded, all other characters pass through.
pub open spec fn unescape_chars(s: Seq<char>) -> Seq<char>
    decreases s.len(),
{
    if s.len() == 0 {
        Seq::empty()
    } else if begins(s, seq!['&', 'a', 'm', 'p', ';']) {
        seq!['&'] + unescape_chars(s.skip(5))
    } else if begins(s, seq!['&', 'l', 't', ';']) {
        seq!['<'] + unescape_chars(s.skip(4))
    } else if begins(s, seq!['&', 'g', 't', ';']) {
        seq!['>'] + unescape_chars(s.skip(4))
    } else if begins(s, seq!['&', 'q', 'u', 'o', 't', ';']) {
        seq!['"'] + unescape_chars(s.skip(6))
    } else if begins(s, seq!['&', '#', 'x', '2', '7', ';']) {
        seq!['\''] + unescape_chars(s.skip(6))
    } else {
        seq![s[0]] + unescape_chars(s.skip(1))
    }
}

/// Escaping, then decoding with a standard entity decoder, reproduces the
/// input exactly.
pub proof fn lemma_escape_round_trip(s: Seq<char>)
    ensures
        unescape_chars(escape_chars(s)) == s,
    decreases s.len(),
{
    if s.len() == 0 {
        assert(escape_chars(s) =~= Seq::<char>::empty());
        assert(unescape_chars(escape_chars(s)) =~= s);
    } else {
        let c = s[0];
        let rest = escape_chars(s.skip(1));
        let e = escape_char(c) + rest;
        assert(escape_chars(s) == e);
        lemma_escape_round_trip(s.skip(1));
        if c == '&' {
            assert(begins(e, seq!['&', 'a', 'm', 'p', ';']));
            assert(e.skip(5) =~= rest);
            assert(unescape_chars(e) =~= seq![c] + s.skip(1));
        } else if c == '<' {
            assert(!begins(e, seq!['&', 'a', 'm', 'p', ';'])) by {
                if e.len() >= 5 {
                    assert(e.take(5)[1] == e[1]);
                    assert(e[1] == 'l');
                }
            }
            assert(begins(e, seq!['&', 'l', 't', ';']));
            assert(e.skip(4) =~= rest);
            assert(unescape_chars(e) =~= seq![c] + s.skip(1));
        } else if c == '>' {
            assert(!begins(e, seq!['&', 'a', 'm', 'p', ';'])) by {
                if e.len() >= 5 {
                    assert(e.take(5)[1] == e[1]);
                    assert(e[1] == 'g');
                }
            }
            assert(!begins(e, seq!['&', 'l', 't', ';'])) by {
                if e.len() >= 4 {
                    assert(e.take(4)[1] == e[1]);
                    assert(e[1] == 'g');
                }
            }
            assert(begins(e, seq!['&', 'g', 't', ';']));
            assert(e.skip(4) =~= rest);
            assert(unescape_chars(e) =~= seq![c] + s.skip(1));
        } else if c == '"' {
            assert(!begins(e, seq!['&', 'a', 'm', 'p', ';'])) by {
                if e.len() >= 5 {
                    assert(e.take(5)[1] == e[1]);
                    assert(e[1] == 'q');
                }
            }
            assert(!begins(e, seq!['&', 'l', 't', ';'])) by {
                if e.len() >= 4 {
                    assert(e.take(4)[1] == e[1]);
                    assert(e[1] == 'q');
                }
            }
            assert(!begins(e, seq!['&', 'g', 't', ';'])) by {
                if e.len() >= 4 {
                    assert(e.take(4)[1] == e[1]);
                    assert(e[1] == 'q');
                }
            }
            assert(begins(e, seq!['&', 'q', 'u', 'o', 't', ';']));
            assert(e.skip(6) =~= rest);
            assert(unescape_chars(e) =~= seq![c] + s.skip(1));
        } else if c == '\'' {
            assert(!begins(e, seq!['&', 'a', 'm', 'p', ';'])) by {
                if e.len() >= 5 {
                    assert(e.take(5)[1] == e[1]);
                    assert(e[1] == '#');
                }
            }
            assert(!begins(e, seq!['&', 'l', 't', ';'])) by {
                if e.len() >= 4 {
                    assert(e.take(4)[1] == e[1]);
                    assert(e[1] == '#');
                }
            }
            assert(!begins(e, seq!['&', 'g', 't', ';'])) by {
                if e.len() >= 4 {
                    assert(e.take(4)[1] == e[1]);
                    assert(e[1] == '#');
                }
            }
            assert(!begins(e, seq!['&', 'q', 'u', 'o', 't', ';'])) by {
                if e.len() >= 6 {
                    assert(e.take(6)[1] == e[1]);
                    assert(e[1] == '#');
                }
            }
            assert(begins(e, seq!['&', '#', 'x', '2', '7', ';']));
            assert(e.skip(6) =~= rest);
            assert(unescape_chars(e) =~= seq![c] + s.skip(1));
        } else {
            assert(e[0] == c);
            assert(!begins(e, seq!['&', 'a', 'm', 'p', ';'])) by {
                if e.len() >= 5 {
                    assert(e.take(5)[0] == e[0]);
                }
            }
            assert(!begins(e, seq!['&', 'l', 't', ';'])) by {
                if e.len() >= 4 {
                    assert(e.take(4)[0] == e[0]);
                }
            }
            assert(!begins(e, seq!['&', 'g', 't', ';'])) by {
                if e.len() >= 4 {
                    assert(e.take(4)[0] == e[0]);
                }
            }
            assert(!begins(e, seq!['&', 'q', 'u', 'o', 't', ';'])) by {
                if e.len() >= 6 {
                    assert(e.take(6)[0] == e[0]);
                }
            }
            assert(!begins(e, seq!['&', '#', 'x', '2', '7', ';'])) by {
                if e.len() >= 6 {
                    assert(e.take(6)[0] == e[0]);
                }
            }
            assert(e.skip(1) =~= rest);
            assert(unescape_chars(e) =~= seq![c] + s.skip(1));
        }
        assert(seq![c] + s.skip(1) =~= s);
    }
}

/// Normalization leaves a text without carriage returns unchanged.
pub proof fn lemma_normalize_no_cr(s: Seq<char>)
    requires
        !s.contains('\r'),
    ensures
        normalize_newlines(s) == s,
    decreases s.len(),
{
    if s.len() == 0 {
        assert(normalize_newlines(s) =~= s);
    } else {
        assert(s[0] != '\r');
        assert(forall|i: int| 0 <= i < s.skip(1).len() ==> s.skip(1)[i] == s[i + 1]);
        assert(!s.skip(1).contains('\r')) by {
            if s.skip(1).contains('\r') {
                let i = choose|i: int| 0 <= i < s.skip(1).len() && s.skip(1)[i] == '\r';
                assert(s[i + 1] == '\r');
            }
        }
        lemma_normalize_no_cr(s.skip(1));
        assert(normalize_newlines(s) =~= s);
    }
}

/// Escaping plain text and then decoding it reproduces the newline-normalized
/// input; for text without carriage returns, the input itself.
pub proof fn lemma_escaped_text_round_trip(s: Seq<char>)
    ensures
        unescape_chars(escaped_text(s)) == normalize_newlines(s),
        !s.contains('\r') ==> unescape_chars(escaped_text(s)) == s,
{
    lemma_escape_round_trip(normalize_newlines(s));
    if !s.contains('\r') {
        lemma_normalize_no_cr(s);
    }
}

} // verus!
