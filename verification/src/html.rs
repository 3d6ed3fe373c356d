//! Embedding text in HTML pages.

use vstd::prelude::*;

verus! {

/// How a character is written in HTML text.
pub open spec fn escaped_char(c: char) -> Seq<char> {
    if c == '&' {
        "&amp;"@
    } else if c == '<' {
        "&lt;"@
    } else if c == '>' {
        "&gt;"@
    } else if c == '"' {
        "&quot;"@
    } else {
        seq![c]
    }
}

/// How a text is written in HTML: each character on its own.
pub open spec fn escaped(text: Seq<char>) -> Seq<char>
    decreases text.len(),
{
    if text.len() == 0 {
        Seq::empty()
    } else {
        escaped(text.drop_last()) + escaped_char(text.last())
    }
}

/// Calls `maud::Render::render` on a text, which escapes the characters `&`, `<`, `>` and `"` and
/// leaves every other character unchanged.
#[verifier::external_body]
pub(crate) fn escape(text: &str) -> (r: String)
    ensures
        r@ == escaped(text@),
{
    maud::Render::render(text).into_string()
}

/// Text without special characters is written as it is.
pub proof fn lemma_plain_text(text: Seq<char>)
    requires
        forall|i: int|
            0 <= i < text.len() ==> #[trigger] text[i] != '&' && text[i] != '<' && text[i] != '>'
                && text[i] != '"',
    ensures
        escaped(text) == text,
    decreases text.len(),
{
    if text.len() > 0 {
        assert(escaped_char(text.last()) == seq![text.last()]);
        lemma_plain_text(text.drop_last());
        assert(text.drop_last() + seq![text.last()] =~= text);
    }
}

/// Whatever the text, its escaped form holds no character that starts or ends a tag or an
/// attribute value.
pub proof fn law_escaped_has_no_markup(text: Seq<char>)
    ensures
        forall|i: int|
            0 <= i < escaped(text).len() ==> #[trigger] escaped(text)[i] != '<' && escaped(text)[i]
                != '>' && escaped(text)[i] != '"',
    decreases text.len(),
{
    if text.len() > 0 {
        law_escaped_has_no_markup(text.drop_last());
        reveal_strlit("&amp;");
        reveal_strlit("&lt;");
        reveal_strlit("&gt;");
        reveal_strlit("&quot;");
        let head = escaped(text.drop_last());
        let tail = escaped_char(text.last());
        assert forall|i: int| 0 <= i < escaped(text).len() implies #[trigger] escaped(text)[i]
            != '<' && escaped(text)[i] != '>' && escaped(text)[i] != '"' by {
            if i < head.len() {
                assert(escaped(text)[i] == head[i]);
            } else {
                assert(escaped(text)[i] == tail[i - head.len()]);
            }
        }
    }
}

/// Each character is escaped on its own: the four special characters by their entity, all others
/// are left unchanged, and neighbors make no difference.
pub proof fn law_escaping(a: Seq<char>, b: Seq<char>, c: char)
    ensures
        escaped(a + b) == escaped(a) + escaped(b),
        escaped(seq!['&']) == "&amp;"@,
        escaped(seq!['<']) == "&lt;"@,
        escaped(seq!['>']) == "&gt;"@,
        escaped(seq!['"']) == "&quot;"@,
        c != '&' && c != '<' && c != '>' && c != '"' ==> escaped(seq![c]) == seq![c],
        escaped(Seq::empty()) == Seq::<char>::empty(),
    decreases b.len(),
{
    reveal_with_fuel(escaped, 2);
    assert forall|x: char| escaped(#[trigger] seq![x]) == escaped_char(x) by {
        assert(seq![x].drop_last() =~= Seq::empty());
        assert(Seq::empty() + escaped_char(x) =~= escaped_char(x));
    }
    assert(escaped(seq!['&']) == escaped_char('&'));
    assert(escaped(seq!['<']) == escaped_char('<'));
    assert(escaped(seq!['>']) == escaped_char('>'));
    assert(escaped(seq!['"']) == escaped_char('"'));
    assert(escaped(seq![c]) == escaped_char(c));
    if b.len() == 0 {
        assert(a + b =~= a);
        assert(escaped(a) + escaped(b) =~= escaped(a));
    } else {
        law_escaping(a, b.drop_last(), c);
        assert((a + b).drop_last() =~= a + b.drop_last());
        assert((a + b).last() == b.last());
        assert(escaped(a + b) =~= escaped(a) + escaped(b));
    }
}

} // verus!
