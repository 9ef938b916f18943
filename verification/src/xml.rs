//! Text inside XML.
use vstd::prelude::*;

verus! {

/// How a character is written inside XML: the ones that have a meaning there as entities,
/// every other one as itself.
pub open spec fn escape_char(c: char) -> Seq<char> {
    if c == '&' {
        "&amp;"@
    } else if c == '<' {
        "&lt;"@
    } else if c == '>' {
        "&gt;"@
    } else if c == '"' {
        "&quot;"@
    } else {
        seq![c]
    }
}

/// How a text is written inside XML.
pub open spec fn escape(text: Seq<char>) -> Seq<char>
    decreases text.len(),
{
    if text.len() == 0 {
        Seq::empty()
    } else {
        escape(text.drop_last()) + escape_char(text.last())
    }
}

/// A text with each `c` in it replaced.
pub open spec fn replace(text: Seq<char>, c: char, with: Seq<char>) -> Seq<char>
    decreases text.len(),
{
    if text.len() == 0 {
        Seq::empty()
    } else {
        replace(text.drop_last(), c, with) + if text.last() == c {
            with
        } else {
            seq![text.last()]
        }
    }
}

/// Whether `s` begins with `head`.
pub open spec fn begins_with(s: Seq<char>, head: Seq<char>) -> bool {
    head.len() <= s.len() && s.take(head.len() as int) == head
}

/// What a reader of XML makes of a text: each of the four entities stands for its
/// character.
pub open spec fn unescape(s: Seq<char>) -> Seq<char>
    decreases s.len(),
{
    if s.len() == 0 {
        Seq::empty()
    } else if begins_with(s, seq!['&', 'a', 'm', 'p', ';']) {
        seq!['&'] + unescape(s.skip(5))
    } else if begins_with(s, seq!['&', 'l', 't', ';']) {
        seq!['<'] + unescape(s.skip(4))
    } else if begins_with(s, seq!['&', 'g', 't', ';']) {
        seq!['>'] + unescape(s.skip(4))
    } else if begins_with(s, seq!['&', 'q', 'u', 'o', 't', ';']) {
        seq!['"'] + unescape(s.skip(6))
    } else {
        seq![s[0]] + unescape(s.skip(1))
    }
}

/// `text` as it is written inside XML.
pub fn escape_xml(text: &str) -> (r: String)
    ensures
        r@ == escape(text@),
{
    let mut out = String::new();
    assert(text@.take(0) =~= Seq::<char>::empty());
    for c in iter: text.chars()
        invariant
            iter.seq() == text@,
            out@ == escape(text@.take(iter.index())),
    {
        let ghost i = iter.index();
        assert(text@.take(i + 1).drop_last() =~= text@.take(i));
        assert(text@.take(i + 1).last() == c);
        let ghost before = out@;
        match c {
            '&' => out.append("&amp;"),
            '<' => out.append("&lt;"),
            '>' => out.append("&gt;"),
            '"' => out.append("&quot;"),
            _ => {
                out.push(c);
                assert(before.push(c) =~= before + seq![c]);
            },
        }
    }
    assert(text@.take(text@.len() as int) =~= text@);
    out
}

proof fn lemma_replace_concat(a: Seq<char>, b: Seq<char>, c: char, with: Seq<char>)
    ensures
        replace(a + b, c, with) == replace(a, c, with) + replace(b, c, with),
    decreases b.len(),
{
    if b.len() == 0 {
        assert(a + b =~= a);
        assert(replace(a, c, with) + replace(b, c, with) =~= replace(a, c, with));
    } else {
        lemma_replace_concat(a, b.drop_last(), c, with);
        assert((a + b).drop_last() =~= a + b.drop_last());
        assert((a + b).last() == b.last());
        assert(replace(a + b, c, with) =~= replace(a, c, with) + replace(b, c, with));
    }
}

proof fn lemma_replace_absent(s: Seq<char>, c: char, with: Seq<char>)
    requires
        !s.contains(c),
    ensures
        replace(s, c, with) == s,
    decreases s.len(),
{
    if s.len() > 0 {
        let front = s.drop_last();
        assert forall|i: int| 0 <= i < front.len() implies front[i] != c by {
            assert(front[i] == s[i]);
        }
        lemma_replace_absent(front, c, with);
        assert(s[s.len() - 1] == s.last());
        assert(s =~= front + seq![s.last()]);
    } else {
        assert(s =~= Seq::<char>::empty());
    }
}

proof fn lemma_replace_one(s: Seq<char>, c: char, with: Seq<char>)
    requires
        s.len() == 1,
    ensures
        replace(s, c, with) == if s[0] == c {
            with
        } else {
            s
        },
{
    reveal_with_fuel(replace, 2);
    assert(s =~= seq![s[0]]);
    assert(Seq::<char>::empty() + with =~= with);
    assert(Seq::<char>::empty() + seq![s[0]] =~= s);
}

/// One character through all four replacements.
proof fn lemma_replace_char_in_turn(c: char)
    ensures
        replace(
            replace(replace(replace(seq![c], '&', "&amp;"@), '<', "&lt;"@), '>', "&gt;"@),
            '"',
            "&quot;"@,
        ) == escape_char(c),
{
    reveal_strlit("&amp;");
    reveal_strlit("&lt;");
    reveal_strlit("&gt;");
    reveal_strlit("&quot;");
    lemma_replace_one(seq![c], '&', "&amp;"@);
    if c == '&' {
        lemma_replace_absent("&amp;"@, '<', "&lt;"@);
        lemma_replace_absent("&amp;"@, '>', "&gt;"@);
        lemma_replace_absent("&amp;"@, '"', "&quot;"@);
    } else {
        lemma_replace_one(seq![c], '<', "&lt;"@);
        if c == '<' {
            lemma_replace_absent("&lt;"@, '>', "&gt;"@);
            lemma_replace_absent("&lt;"@, '"', "&quot;"@);
        } else {
            lemma_replace_one(seq![c], '>', "&gt;"@);
            if c == '>' {
                lemma_replace_absent("&gt;"@, '"', "&quot;"@);
            } else {
                lemma_replace_one(seq![c], '"', "&quot;"@);
            }
        }
    }
}

/// Escaping is the same as replacing `&`, `<`, `>` and `"` in the whole text, one after the
/// other in this order.
pub proof fn law_escape_is_replacing_in_turn(text: Seq<char>)
    ensures
        escape(text) == replace(
            replace(replace(replace(text, '&', "&amp;"@), '<', "&lt;"@), '>', "&gt;"@),
            '"',
            "&quot;"@,
        ),
    decreases text.len(),
{
    if text.len() > 0 {
        let front = text.drop_last();
        let one = seq![text.last()];
        law_escape_is_replacing_in_turn(front);
        lemma_replace_char_in_turn(text.last());
        assert(text =~= front + one);
        let amp = "&amp;"@;
        let lt = "&lt;"@;
        let gt = "&gt;"@;
        let quot = "&quot;"@;
        lemma_replace_concat(front, one, '&', amp);
        let (f1, o1) = (replace(front, '&', amp), replace(one, '&', amp));
        lemma_replace_concat(f1, o1, '<', lt);
        let (f2, o2) = (replace(f1, '<', lt), replace(o1, '<', lt));
        lemma_replace_concat(f2, o2, '>', gt);
        let (f3, o3) = (replace(f2, '>', gt), replace(o2, '>', gt));
        lemma_replace_concat(f3, o3, '"', quot);
    }
}

/// An escaped text holds none of the characters that would end an element or begin one.
pub proof fn law_escaped_text_has_no_markup(text: Seq<char>)
    ensures
        !escape(text).contains('<'),
        !escape(text).contains('>'),
        !escape(text).contains('"'),
    decreases text.len(),
{
    if text.len() > 0 {
        law_escaped_text_has_no_markup(text.drop_last());
        reveal_strlit("&amp;");
        reveal_strlit("&lt;");
        reveal_strlit("&gt;");
        reveal_strlit("&quot;");
        let a = escape(text.drop_last());
        let b = escape_char(text.last());
        assert forall|i: int| 0 <= i < (a + b).len() implies (a + b)[i] != '<' && (a + b)[i] != '>'
            && (a + b)[i] != '"' by {
            if i < a.len() {
                assert((a + b)[i] == a[i]);
                assert(a.contains(a[i]));
            } else {
                assert((a + b)[i] == b[i - a.len()]);
            }
        }
    }
}

proof fn lemma_escape_from_the_front(text: Seq<char>)
    requires
        text.len() > 0,
    ensures
        escape(text) == escape_char(text[0]) + escape(text.skip(1)),
    decreases text.len(),
{
    let front = text.drop_last();
    if text.len() == 1 {
        assert(front =~= Seq::<char>::empty());
        assert(text.skip(1) =~= Seq::<char>::empty());
        assert(Seq::<char>::empty() + escape_char(text[0]) =~= escape_char(text[0])
            + Seq::<char>::empty());
    } else {
        lemma_escape_from_the_front(front);
        let rest = text.skip(1);
        assert(rest.drop_last() =~= front.skip(1));
        assert(rest.last() == text.last());
        assert(escape_char(text[0]) + escape(front.skip(1)) + escape_char(text.last())
            =~= escape_char(text[0]) + (escape(front.skip(1)) + escape_char(text.last())));
    }
}

/// A reader of XML gets back every text that was escaped.
pub proof fn law_unescape_undoes_escape(text: Seq<char>)
    ensures
        unescape(escape(text)) == text,
    decreases text.len(),
{
    if text.len() > 0 {
        let c = text[0];
        let rest = text.skip(1);
        lemma_escape_from_the_front(text);
        law_unescape_undoes_escape(rest);
        reveal_strlit("&amp;");
        reveal_strlit("&lt;");
        reveal_strlit("&gt;");
        reveal_strlit("&quot;");
        let head = escape_char(c);
        let s = escape(text);
        assert(s.skip(head.len() as int) =~= escape(rest));
        assert(s[0] == head[0]);
        assert(seq![c] + rest =~= text);
        let amp = seq!['&', 'a', 'm', 'p', ';'];
        let lt = seq!['&', 'l', 't', ';'];
        let gt = seq!['&', 'g', 't', ';'];
        let quot = seq!['&', 'q', 'u', 'o', 't', ';'];
        if c == '&' || c == '<' || c == '>' || c == '"' {
            assert(s.take(head.len() as int) =~= head);
            assert(s[1] == head[1]);
            if c == '&' {
                assert(head =~= amp);
            } else if c == '<' {
                assert(head =~= lt);
            } else if c == '>' {
                assert(head =~= gt);
            } else {
                assert(head =~= quot);
            }
            if begins_with(s, amp) {
                assert(s.take(5)[1] == 'a');
            }
            if begins_with(s, lt) {
                assert(s.take(4)[1] == 'l');
            }
            if begins_with(s, gt) {
                assert(s.take(4)[1] == 'g');
            }
            if begins_with(s, quot) {
                assert(s.take(6)[1] == 'q');
            }
        } else {
            if begins_with(s, amp) {
                assert(s.take(5)[0] == '&');
            }
            if begins_with(s, lt) {
                assert(s.take(4)[0] == '&');
            }
            if begins_with(s, gt) {
                assert(s.take(4)[0] == '&');
            }
            if begins_with(s, quot) {
                assert(s.take(6)[0] == '&');
            }
        }
    }
}

/// A text is escaped piece by piece.
pub proof fn law_escape_goes_piece_by_piece(a: Seq<char>, b: Seq<char>)
    ensures
        escape(a + b) == escape(a) + escape(b),
        escape(Seq::empty()) == Seq::<char>::empty(),
    decreases b.len(),
{
    if b.len() == 0 {
        assert(a + b =~= a);
        assert(escape(a) + escape(b) =~= escape(a));
    } else {
        law_escape_goes_piece_by_piece(a, b.drop_last());
        assert((a + b).drop_last() =~= a + b.drop_last());
        assert((a + b).last() == b.last());
        assert(escape(a + b) =~= escape(a) + escape(b));
    }
}

/// The four characters of markup become their entities and every other one stays as it is.
pub proof fn law_escape_of_one_character(c: char)
    ensures
        c == '&' ==> escape(seq![c]) == seq!['&', 'a', 'm', 'p', ';'],
        c == '<' ==> escape(seq![c]) == seq!['&', 'l', 't', ';'],
        c == '>' ==> escape(seq![c]) == seq!['&', 'g', 't', ';'],
        c == '"' ==> escape(seq![c]) == seq!['&', 'q', 'u', 'o', 't', ';'],
        c != '&' && c != '<' && c != '>' && c != '"' ==> escape(seq![c]) == seq![c],
{
    reveal_with_fuel(escape, 2);
    reveal_strlit("&amp;");
    reveal_strlit("&lt;");
    reveal_strlit("&gt;");
    reveal_strlit("&quot;");
    assert(seq![c].drop_last() =~= Seq::<char>::empty());
    assert(Seq::<char>::empty() + escape_char(c) =~= escape_char(c));
    assert("&amp;"@ =~= seq!['&', 'a', 'm', 'p', ';']);
    assert("&lt;"@ =~= seq!['&', 'l', 't', ';']);
    assert("&gt;"@ =~= seq!['&', 'g', 't', ';']);
    assert("&quot;"@ =~= seq!['&', 'q', 'u', 'o', 't', ';']);
}


} // verus!
