//! Plain-text renderer: wraps a paste's text in a preformatted block,
//! escaping the markup-significant characters. Syntax highlighting belongs
//! to an outside collaborator that the service invokes through the render
//! cache's compute hook; this renderer is the plain-text path.
use vstd::prelude::*;

verus! {

/// The escape of one character of text.
pub open spec fn esc_char(c: char) -> Seq<char> {
    if c == '<' {
        seq!['&', 'l', 't', ';']
    } else if c == '>' {
        seq!['&', 'g', 't', ';']
    } else if c == '&' {
        seq!['&', 'a', 'm', 'p', ';']
    } else {
        seq![c]
    }
}

/// The text with every character escaped, in order.
pub open spec fn escaped(s: Seq<char>) -> Seq<char>
    decreases s.len(),
{
    if s.len() == 0 {
        Seq::empty()
    } else {
        escaped(s.drop_last()) + esc_char(s.last())
    }
}

/// The plain-text markup of a paste: its escaped text inside a
/// preformatted block.
pub open spec fn render_spec(text: Seq<char>) -> Seq<char> {
    seq!['<', 'p', 'r', 'e', '>'] + escaped(text) + seq!['<', '/', 'p', 'r', 'e', '>']
}

/// Renders a paste's text as plain-text markup.
pub fn render_plain(text: &str) -> (r: String)
    ensures
        r@ == render_spec(text@),
{
    let n = text.unicode_len();
    let mut out = String::new();
    out.append("<pre>");
    proof {
        reveal_strlit("<pre>");
        assert(out@ =~= seq!['<', 'p', 'r', 'e', '>'] + escaped(text@.subrange(0, 0)));
    }
    let mut i: usize = 0;
    while i < n
        invariant
            n == text@.len(),
            0 <= i <= n,
            out@ == seq!['<', 'p', 'r', 'e', '>'] + escaped(text@.subrange(0, i as int)),
        decreases n - i,
    {
        let c = text.get_char(i);
        if c == '<' {
            out.append("&lt;");
            proof {
                reveal_strlit("&lt;");
            }
        } else if c == '>' {
            out.append("&gt;");
            proof {
                reveal_strlit("&gt;");
            }
        } else if c == '&' {
            out.append("&amp;");
            proof {
                reveal_strlit("&amp;");
            }
        } else {
            let piece = text.substring_char(i, i + 1);
            proof {
                assert(piece@ =~= seq![c]);
            }
            out.append(piece);
        }
        proof {
            let pre = text@.subrange(0, i + 1);
            assert(pre.drop_last() =~= text@.subrange(0, i as int));
            assert(pre.last() == c);
            assert(out@ =~= seq!['<', 'p', 'r', 'e', '>'] + escaped(pre));
        }
        i = i + 1;
    }
    out.append("</pre>");
    proof {
        reveal_strlit("</pre>");
        assert(text@.subrange(0, n as int) =~= text@);
        assert(out@ =~= render_spec(text@));
    }
    out
}

} // verus!
