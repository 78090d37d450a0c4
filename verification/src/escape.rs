//! HTML escaping of file contents.

use vstd::prelude::*;
use crate::text::push_char;

verus! {

pub open spec fn escape_char(c: char) -> Seq<char> {
    if c == '&' {
        "&amp;"@
    } else if c == '<' {
        "&lt;"@
    } else if c == '>' {
        "&gt;"@
    } else {
        seq![c]
    }
}

pub open spec fn escaped(s: Seq<char>) -> Seq<char>
    decreases s.len(),
{
    if s.len() == 0 {
        seq![]
    } else {
        escaped(s.drop_last()) + escape_char(s.last())
    }
}

pub fn html_escape(input: &str) -> (out: String)
    ensures
        out@ == escaped(input@),
{
    let mut out = String::new();
    for c in it: input.chars()
        invariant
            it.seq() == input@,
            out@ == escaped(it.seq().take(it.index() as int)),
    {
        let ghost pre = it.seq().take(it.index() as int);
        if c == '&' {
            out.append("&amp;");
        } else if c == '<' {
            out.append("&lt;");
        } else if c == '>' {
            out.append("&gt;");
        } else {
            push_char(&mut out, c);
        }
        assert(it.seq().take(it.index() + 1).drop_last() == pre);
    }
    assert(input@.take(input@.len() as int) =~= input@);
    out
}


/// Reads HTML text back, turning the three entities that `html_escape`
/// writes into the characters they stand for.
pub open spec fn unescaped(t: Seq<char>) -> Seq<char>
    decreases t.len(),
{
    if t.len() == 0 {
        seq![]
    } else if t.len() >= 5 && t.take(5) == "&amp;"@ {
        seq!['&'] + unescaped(t.skip(5))
    } else if t.len() >= 4 && t.take(4) == "&lt;"@ {
        seq!['<'] + unescaped(t.skip(4))
    } else if t.len() >= 4 && t.take(4) == "&gt;"@ {
        seq!['>'] + unescaped(t.skip(4))
    } else {
        seq![t[0]] + unescaped(t.drop_first())
    }
}

/// Escaping works character by character: escaping a concatenation is the
/// concatenation of the escaped parts.
pub proof fn lemma_escaped_concat(a: Seq<char>, b: Seq<char>)
    ensures
        escaped(a + b) == escaped(a) + escaped(b),
    decreases b.len(),
{
    if b.len() == 0 {
        assert(a + b =~= a);
    } else {
        lemma_escaped_concat(a, b.drop_last());
        assert((a + b).drop_last() =~= a + b.drop_last());
        assert((a + b).last() == b.last());
    }
}

/// Escaped text never holds a raw `<` or `>`, so file contents shown in a
/// preview page cannot open or close markup.
pub proof fn lemma_escaped_has_no_angle_brackets(s: Seq<char>)
    ensures
        forall|i: int| 0 <= i < escaped(s).len() ==> escaped(s)[i] != '<' && escaped(s)[i] != '>',
    decreases s.len(),
{
    reveal_strlit("&amp;");
    reveal_strlit("&lt;");
    reveal_strlit("&gt;");
    if s.len() > 0 {
        lemma_escaped_has_no_angle_brackets(s.drop_last());
        let a = escaped(s.drop_last());
        let b = escape_char(s.last());
        assert(escaped(s) == a + b);
        assert forall|i: int| 0 <= i < b.len() implies b[i] != '<' && b[i] != '>' by {}
        assert forall|i: int| 0 <= i < escaped(s).len() implies escaped(s)[i] != '<' && escaped(s)[i] != '>' by {
            if i < a.len() {
                assert(escaped(s)[i] == a[i]);
            } else {
                assert(escaped(s)[i] == b[i - a.len()]);
            }
        }
    }
}

/// Text without `&`, `<` and `>` is left as it is.
pub proof fn lemma_escaped_plain_text(s: Seq<char>)
    requires
        forall|i: int| 0 <= i < s.len() ==> s[i] != '&' && s[i] != '<' && s[i] != '>',
    ensures
        escaped(s) == s,
    decreases s.len(),
{
    if s.len() > 0 {
        lemma_escaped_plain_text(s.drop_last());
        assert(s.drop_last() + seq![s.last()] =~= s);
    }
}

/// Escaping loses nothing: reading the escaped text back gives the
/// original text.
pub proof fn lemma_unescape_escaped(s: Seq<char>)
    ensures
        unescaped(escaped(s)) == s,
    decreases s.len(),
{
    reveal_strlit("&amp;");
    reveal_strlit("&lt;");
    reveal_strlit("&gt;");
    if s.len() > 0 {
        let c = s[0];
        let rest = s.drop_first();
        lemma_escaped_concat(seq![c], rest);
        assert(seq![c] + rest =~= s);
        assert(seq![c].drop_last() =~= Seq::<char>::empty());
        assert(escaped(Seq::<char>::empty()) =~= Seq::<char>::empty());
        assert(escaped(seq![c]) =~= escape_char(c));
        lemma_unescape_escaped(rest);
        let t = escaped(s);
        let e = escape_char(c);
        assert(t == e + escaped(rest));
        assert(t.take(e.len() as int) =~= e);
        assert(t.skip(e.len() as int) =~= escaped(rest));
        if c == '&' {
            assert(unescaped(t) == seq!['&'] + unescaped(t.skip(5)));
        } else if c == '<' {
            assert(t[1] == 'l');
            assert(t.len() >= 5 ==> t.take(5)[1] == 'l');
            assert(t.len() >= 5 ==> t.take(5) != "&amp;"@);
            assert(unescaped(t) == seq!['<'] + unescaped(t.skip(4)));
        } else if c == '>' {
            assert(t[1] == 'g');
            assert(t.len() >= 5 ==> t.take(5)[1] == 'g');
            assert(t.len() >= 5 ==> t.take(5) != "&amp;"@);
            assert(t.take(4)[1] == 'g');
            assert(t.take(4) != "&lt;"@);
            assert(unescaped(t) == seq!['>'] + unescaped(t.skip(4)));
        } else {
            assert(t[0] == c);
            assert(t.len() >= 5 ==> t.take(5)[0] == c);
            assert(t.len() >= 4 ==> t.take(4)[0] == c);
            assert(t.drop_first() =~= escaped(rest));
            assert(unescaped(t) == seq![c] + unescaped(t.drop_first()));
        }
    }
}

/// `str::replace(pattern, with)` for a non-empty pattern: every leftmost,
/// non-overlapping occurrence of `p` in `s`, read from the start, replaced
/// by `r`.
pub open spec fn replace_all(s: Seq<char>, p: Seq<char>, r: Seq<char>) -> Seq<char>
    recommends
        p.len() > 0,
    decreases s.len(),
{
    if p.len() == 0 || s.len() < p.len() {
        s
    } else if s.take(p.len() as int) == p {
        r + replace_all(s.skip(p.len() as int), p, r)
    } else {
        seq![s[0]] + replace_all(s.drop_first(), p, r)
    }
}

/// The escapes undone with three `replace` calls, `&amp;` last.
pub open spec fn unescaped_by_replace(t: Seq<char>) -> Seq<char> {
    replace_all(replace_all(replace_all(t, "&lt;"@, "<"@), "&gt;"@, ">"@), "&amp;"@, "&"@)
}

proof fn lemma_replace_skip_head(x: Seq<char>, u: Seq<char>, p: Seq<char>, r: Seq<char>)
    requires
        p.len() > 0,
        forall|i: int| 0 <= i < x.len() ==> x[i] != p[0],
    ensures
        replace_all(x + u, p, r) == x + replace_all(u, p, r),
    decreases x.len(),
{
    if x.len() == 0 {
        assert(x + u =~= u);
    } else {
        let t = x + u;
        if t.len() >= p.len() {
            assert(t.take(p.len() as int)[0] == x[0]);
            assert(t.take(p.len() as int) != p);
        } else {
            assert(u.len() < p.len());
        }
        assert(t.drop_first() =~= x.drop_first() + u);
        lemma_replace_skip_head(x.drop_first(), u, p, r);
        assert(seq![x[0]] + (x.drop_first() + replace_all(u, p, r)) =~= x + replace_all(u, p, r));
    }
}

proof fn lemma_replace_match_head(u: Seq<char>, p: Seq<char>, r: Seq<char>)
    requires
        p.len() > 0,
    ensures
        replace_all(p + u, p, r) == r + replace_all(u, p, r),
{
    assert((p + u).take(p.len() as int) =~= p);
    assert((p + u).skip(p.len() as int) =~= u);
}

/// An entity that starts like the pattern but is another one is kept.
proof fn lemma_replace_other_entity(x: Seq<char>, u: Seq<char>, p: Seq<char>, r: Seq<char>)
    requires
        p.len() > 0,
        x.len() >= p.len(),
        x[0] == p[0],
        x.take(p.len() as int) != p,
        forall|i: int| 1 <= i < x.len() ==> x[i] != p[0],
    ensures
        replace_all(x + u, p, r) == x + replace_all(u, p, r),
{
    let t = x + u;
    assert(t.take(p.len() as int) =~= x.take(p.len() as int));
    assert(t.drop_first() =~= x.drop_first() + u);
    lemma_replace_skip_head(x.drop_first(), u, p, r);
    assert(seq![x[0]] + (x.drop_first() + replace_all(u, p, r)) =~= x + replace_all(u, p, r));
}

/// Each character after `k` of the three `replace` steps: before any step
/// it is escaped, after the first `<` is back, after the second `>` too,
/// after the third `&` too.
pub open spec fn stage_char(c: char, k: int) -> Seq<char> {
    if c == '<' && k >= 1 {
        seq![c]
    } else if c == '>' && k >= 2 {
        seq![c]
    } else if c == '&' && k >= 3 {
        seq![c]
    } else {
        escape_char(c)
    }
}

pub open spec fn staged(s: Seq<char>, k: int) -> Seq<char>
    decreases s.len(),
{
    if s.len() == 0 {
        seq![]
    } else {
        stage_char(s[0], k) + staged(s.drop_first(), k)
    }
}

proof fn lemma_staged_zero(s: Seq<char>)
    ensures
        staged(s, 0) == escaped(s),
    decreases s.len(),
{
    if s.len() > 0 {
        lemma_staged_zero(s.drop_first());
        lemma_escaped_concat(seq![s[0]], s.drop_first());
        assert(seq![s[0]] + s.drop_first() =~= s);
        assert(seq![s[0]].drop_last() =~= Seq::<char>::empty());
        assert(escaped(Seq::<char>::empty()) =~= Seq::<char>::empty());
        assert(escaped(seq![s[0]]) =~= escape_char(s[0]));
    }
}

proof fn lemma_staged_last(s: Seq<char>)
    ensures
        staged(s, 3) == s,
    decreases s.len(),
{
    if s.len() > 0 {
        lemma_staged_last(s.drop_first());
        assert(seq![s[0]] + s.drop_first() =~= s);
    }
}

/// One `replace` step turns stage `k` into stage `k + 1`.
proof fn lemma_replace_stage(s: Seq<char>, k: int)
    requires
        0 <= k < 3,
    ensures
        replace_all(
            staged(s, k),
            if k == 0 { "&lt;"@ } else if k == 1 { "&gt;"@ } else { "&amp;"@ },
            if k == 0 { "<"@ } else if k == 1 { ">"@ } else { "&"@ },
        ) == staged(s, k + 1),
    decreases s.len(),
{
    reveal_strlit("&lt;");
    reveal_strlit("&gt;");
    reveal_strlit("&amp;");
    reveal_strlit("<");
    reveal_strlit(">");
    reveal_strlit("&");
    let p = if k == 0 { "&lt;"@ } else if k == 1 { "&gt;"@ } else { "&amp;"@ };
    let r = if k == 0 { "<"@ } else if k == 1 { ">"@ } else { "&"@ };
    if s.len() > 0 {
        let c = s[0];
        let x = stage_char(c, k);
        let u = staged(s.drop_first(), k);
        lemma_replace_stage(s.drop_first(), k);
        assert(staged(s, k) == x + u);
        let target = if c == '<' { 0int } else if c == '>' { 1int } else if c == '&' { 2int } else { -1int };
        if target == k {
            assert(x =~= p);
            lemma_replace_match_head(u, p, r);
            assert(stage_char(c, k + 1) =~= r);
        } else if target > k {
            assert(x[0] == '&');
            assert(x.take(p.len() as int) != p) by {
                assert(x.take(p.len() as int)[1] != p[1]);
            }
            lemma_replace_other_entity(x, u, p, r);
            assert(stage_char(c, k + 1) == x);
        } else {
            assert(x.len() == 1 && x[0] == c && c != '&');
            lemma_replace_skip_head(x, u, p, r);
            assert(stage_char(c, k + 1) == x);
        }
    }
}

/// Undoing the escapes with `replace("&lt;", "<")`, `replace("&gt;", ">")`
/// and then `replace("&amp;", "&")` gives the original text back.
pub proof fn lemma_replace_chain_undoes_escape(s: Seq<char>)
    ensures
        unescaped_by_replace(escaped(s)) == s,
{
    lemma_staged_zero(s);
    lemma_replace_stage(s, 0);
    lemma_replace_stage(s, 1);
    lemma_replace_stage(s, 2);
    lemma_staged_last(s);
}

} // verus!
