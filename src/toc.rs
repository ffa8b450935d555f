//! Headings of a Markdown document and the table of contents built from them.
use vstd::prelude::*;
use crate::text::{append_chars, chars_of, string_of};

verus! {

/// A heading: its level (1 is the top) and its title.
pub struct HeadLine {
    pub intend: usize,
    pub title: String,
}

/// The lines of `s`: the pieces between line breaks, the last one included.
pub open spec fn pieces(s: Seq<char>) -> Seq<Seq<char>>
    decreases s.len(),
{
    if s.len() == 0 {
        seq![Seq::empty()]
    } else if s.last() == '\n' {
        pieces(s.drop_last()).push(Seq::empty())
    } else {
        let p = pieces(s.drop_last());
        p.update(p.len() - 1, p.last().push(s.last()))
    }
}

/// A line without the carriage return that may end it.
pub open spec fn strip_cr(l: Seq<char>) -> Seq<char> {
    if l.len() > 0 && l.last() == '\r' { l.drop_last() } else { l }
}

/// The number of heading markers that start `l`.
pub open spec fn leading_hashes(l: Seq<char>) -> nat
    decreases l.len(),
{
    if l.len() > 0 && l[0] == '#' { 1 + leading_hashes(l.drop_first()) } else { 0 }
}

/// Whether `l` is a heading line: one or more markers, then a space.
pub open spec fn is_heading(l: Seq<char>) -> bool {
    let k = leading_hashes(l);
    k >= 1 && k < l.len() && l[k as int] == ' '
}

/// The heading of a heading line: its marker count, and all that follows
/// the first space.
pub open spec fn heading_of(l: Seq<char>) -> (int, Seq<char>) {
    let k = leading_hashes(l);
    (k as int, l.subrange(k + 1 as int, l.len() as int))
}

/// The headings of the given lines, in order.
pub open spec fn headings_in(ls: Seq<Seq<char>>) -> Seq<(int, Seq<char>)>
    decreases ls.len(),
{
    if ls.len() == 0 {
        Seq::empty()
    } else {
        let l = strip_cr(ls.last());
        let before = headings_in(ls.drop_last());
        if is_heading(l) { before.push(heading_of(l)) } else { before }
    }
}

/// The headings of a document, in order.
pub open spec fn headings(text: Seq<char>) -> Seq<(int, Seq<char>)> {
    headings_in(pieces(text))
}

/// The number of headings of level 1.
pub open spec fn count_top(hs: Seq<(int, Seq<char>)>) -> nat
    decreases hs.len(),
{
    if hs.len() == 0 {
        0
    } else {
        count_top(hs.drop_last()) + if hs.last().0 == 1 { 1nat } else { 0nat }
    }
}

/// The headings other than those of level 1, each one level up.
pub open spec fn lifted(hs: Seq<(int, Seq<char>)>) -> Seq<(int, Seq<char>)>
    decreases hs.len(),
{
    if hs.len() == 0 {
        Seq::empty()
    } else if hs.last().0 == 1 {
        lifted(hs.drop_last())
    } else {
        lifted(hs.drop_last()).push((hs.last().0 - 1, hs.last().1))
    }
}

/// A single level-1 heading is the document's title: it is dropped and
/// every other heading moves one level up. Otherwise nothing changes.
pub open spec fn normalized(hs: Seq<(int, Seq<char>)>) -> Seq<(int, Seq<char>)> {
    if count_top(hs) == 1 { lifted(hs) } else { hs }
}

/// The view of a heading.
pub open spec fn head_view(h: HeadLine) -> (int, Seq<char>) {
    (h.intend as int, h.title@)
}

/// The views of a list of headings.
pub open spec fn heads_view(hs: Seq<HeadLine>) -> Seq<(int, Seq<char>)> {
    hs.map_values(|h: HeadLine| head_view(h))
}

/// The heading in `line` (its carriage return stripped), if it is one.
fn parse_heading(line: &Vec<char>) -> (r: Option<HeadLine>)
    ensures
        is_heading(strip_cr(line@)) == r is Some,
        r matches Some(h) ==> head_view(h) == heading_of(strip_cr(line@)) && h.intend >= 1,
{
    let mut n: usize = line.len();
    if n > 0 && line[n - 1] == '\r' {
        n = n - 1;
    }
    let ghost l = strip_cr(line@);
    assert(l =~= line@.take(n as int));
    let mut k: usize = 0;
    assert(l.skip(0) =~= l);
    while k < n && line[k] == '#'
        invariant
            k <= n <= line.len(),
            l == line@.take(n as int),
            forall|m: int| 0 <= m < k ==> l[m] == '#',
            leading_hashes(l) == k + leading_hashes(l.skip(k as int)),
        decreases n - k,
    {
        assert(l.skip(k as int).drop_first() =~= l.skip(k + 1 as int));
        k = k + 1;
    }
    assert(leading_hashes(l) == k);
    if k >= 1 && k < n && line[k] == ' ' {
        let mut t: Vec<char> = Vec::new();
        let mut i: usize = k + 1;
        while i < n
            invariant
                k + 1 <= i <= n <= line.len(),
                t@ == line@.subrange(k + 1, i as int),
            decreases n - i,
        {
            t.push(line[i]);
            i = i + 1;
            assert(t@ =~= line@.subrange(k + 1, i as int));
        }
        assert(t@ =~= l.subrange(k + 1, l.len() as int));
        Some(HeadLine { intend: k, title: string_of(&t) })
    } else {
        None
    }
}

/// The headings of a document, in order: one for each line that starts with
/// one or more `#` and a space. Its level is the number of `#`; its title is
/// all that follows the first space.
pub fn extract_headings(text: &str) -> (r: Vec<HeadLine>)
    ensures
        heads_view(r@) == headings(text@),
        levels_positive(r@),
{
    let s = chars_of(text);
    let mut r: Vec<HeadLine> = Vec::new();
    let mut cur: Vec<char> = Vec::new();
    let mut i: usize = 0;
    while i < s.len()
        invariant
            i <= s.len(),
            s@ == text@,
            cur@ == pieces(s@.take(i as int)).last(),
            heads_view(r@) == headings_in(pieces(s@.take(i as int)).drop_last()),
            levels_positive(r@),
            pieces(s@.take(i as int)).len() >= 1,
        decreases s.len() - i,
    {
        let ghost ps = pieces(s@.take(i as int));
        assert(s@.take(i + 1 as int).drop_last() =~= s@.take(i as int));
        if s[i] == '\n' {
            let ghost before = r@;
            let h = parse_heading(&cur);
            if let Some(h) = h {
                r.push(h);
                assert(heads_view(r@) =~= heads_view(before).push(head_view(h)));
            }
            assert(ps.drop_last().push(ps.last()) =~= ps);
            assert(heads_view(r@) == headings_in(ps));
            assert(pieces(s@.take(i + 1 as int)) == ps.push(Seq::empty()));
            assert(ps.push(Seq::<char>::empty()).drop_last() =~= ps);
            cur = Vec::new();
        } else {
            cur.push(s[i]);
            let ghost p2 = pieces(s@.take(i + 1 as int));
            assert(p2 == ps.update(ps.len() - 1, ps.last().push(s@[i as int])));
            assert(p2.drop_last() =~= ps.drop_last());
        }
        i = i + 1;
    }
    assert(s@.take(s.len() as int) =~= s@);
    let ghost ps = pieces(s@);
    let ghost before = r@;
    let h = parse_heading(&cur);
    if let Some(h) = h {
        r.push(h);
        assert(heads_view(r@) =~= heads_view(before).push(head_view(h)));
    }
    assert(ps.drop_last().push(ps.last()) =~= ps);
    r
}

/// Whether every heading has level 1 or more.
pub open spec fn levels_positive(hs: Seq<HeadLine>) -> bool {
    forall|i: int| 0 <= i < hs.len() ==> #[trigger] hs[i].intend >= 1
}

/// The headings as the table of contents lists them: when exactly one heading
/// has level 1, it is the document's title and is dropped, and every other
/// heading moves one level up; otherwise they are kept as they are.
pub fn normalize_headings(hs: Vec<HeadLine>) -> (r: Vec<HeadLine>)
    requires
        levels_positive(hs@),
    ensures
        heads_view(r@) == normalized(heads_view(hs@)),
        levels_positive(r@),
{
    let ghost v = heads_view(hs@);
    let mut top: usize = 0;
    let mut i: usize = 0;
    while i < hs.len()
        invariant
            i <= hs.len(),
            v == heads_view(hs@),
            top == count_top(v.take(i as int)),
            top <= i,
        decreases hs.len() - i,
    {
        assert(v.take(i + 1 as int).drop_last() =~= v.take(i as int));
        if hs[i].intend == 1 {
            top = top + 1;
        }
        i = i + 1;
    }
    assert(v.take(hs.len() as int) =~= v);
    if top != 1 {
        return hs;
    }
    let mut r: Vec<HeadLine> = Vec::new();
    let ghost all = hs@;
    for h in it: hs
        invariant
            it.seq() == all,
            v == heads_view(all),
            levels_positive(all),
            levels_positive(r@),
            heads_view(r@) == lifted(v.take(it.index() as int)),
    {
        let ghost k = it.index() as int;
        assert(v.take(k + 1).drop_last() =~= v.take(k));
        assert(all[k] == h);
        let ghost before = r@;
        if h.intend != 1 {
            let lifted_head = HeadLine { intend: h.intend - 1, title: h.title };
            r.push(lifted_head);
            assert(heads_view(r@) =~= heads_view(before).push(head_view(lifted_head)));
        }
    }
    assert(v.take(v.len() as int) =~= v);
    r
}

/// A character in ASCII lower case; other characters are unchanged.
pub open spec fn ascii_lower(c: char) -> char {
    if 'A' <= c && c <= 'Z' { (((c as u8) + 32) as u8) as char } else { c }
}

/// The anchor of a title: lower-cased (ASCII), each space a hyphen, every
/// other character as it is.
pub open spec fn slug(title: Seq<char>) -> Seq<char> {
    title.map_values(|c: char| if c == ' ' { '-' } else { ascii_lower(c) })
}

/// `n` times four spaces.
pub open spec fn indent(n: nat) -> Seq<char>
    decreases n,
{
    if n == 0 { Seq::empty() } else { indent((n - 1) as nat) + seq![' ', ' ', ' ', ' '] }
}

/// The list item of a heading: indented four spaces per level below the
/// first, linking its title to the title's anchor.
pub open spec fn toc_item(h: (int, Seq<char>)) -> Seq<char> {
    indent((h.0 - 1) as nat) + seq!['-', ' ', '['] + h.1 + seq![']', '(', '#'] + slug(h.1) + seq![')', ' ', ' ', '\n']
}

/// The list items of the given headings, in order.
pub open spec fn toc_items(hs: Seq<(int, Seq<char>)>) -> Seq<char>
    decreases hs.len(),
{
    if hs.len() == 0 { Seq::empty() } else { toc_items(hs.drop_last()) + toc_item(hs.last()) }
}

/// Appends the anchor of `t` to `out`.
fn push_slug(out: &mut Vec<char>, t: &Vec<char>)
    ensures
        final(out)@ == old(out)@ + slug(t@),
{
    let mut i: usize = 0;
    while i < t.len()
        invariant
            i <= t.len(),
            out@ == old(out)@ + slug(t@.take(i as int)),
        decreases t.len() - i,
    {
        let c = t[i];
        let d = if c == ' ' {
            '-'
        } else if 'A' <= c && c <= 'Z' {
            ((c as u8) + 32) as char
        } else {
            c
        };
        out.push(d);
        i = i + 1;
        assert(out@ =~= old(out)@ + slug(t@.take(i as int)));
    }
    assert(t@.take(t.len() as int) =~= t@);
}

impl HeadLine {
    /// The table-of-contents line of this heading.
    pub fn to_md(&self) -> (r: String)
        requires
            self.intend >= 1,
        ensures
            r@ == toc_item(head_view(*self)),
    {
        let v = self.item_chars();
        string_of(&v)
    }

    fn item_chars(&self) -> (r: Vec<char>)
        requires
            self.intend >= 1,
        ensures
            r@ == toc_item(head_view(*self)),
    {
        let mut out: Vec<char> = Vec::new();
        let mut k: usize = 1;
        while k < self.intend
            invariant
                1 <= k <= self.intend,
                out@ == indent((k - 1) as nat),
            decreases self.intend - k,
        {
            out.push(' ');
            out.push(' ');
            out.push(' ');
            out.push(' ');
            k = k + 1;
            assert(out@ =~= indent((k - 1) as nat));
        }
        let t = chars_of(self.title.as_str());
        out.push('-');
        out.push(' ');
        out.push('[');
        append_chars(&mut out, &t);
        out.push(']');
        out.push('(');
        out.push('#');
        push_slug(&mut out, &t);
        out.push(')');
        out.push(' ');
        out.push(' ');
        out.push('\n');
        assert(out@ =~= toc_item(head_view(*self)));
        out
    }
}

/// Appends the list items of `hs` to `out`.
pub fn push_toc_items(out: &mut Vec<char>, hs: &Vec<HeadLine>)
    requires
        levels_positive(hs@),
    ensures
        final(out)@ == old(out)@ + toc_items(heads_view(hs@)),
{
    let ghost v = heads_view(hs@);
    let mut i: usize = 0;
    while i < hs.len()
        invariant
            i <= hs.len(),
            v == heads_view(hs@),
            levels_positive(hs@),
            out@ == old(out)@ + toc_items(v.take(i as int)),
        decreases hs.len() - i,
    {
        let item = hs[i].item_chars();
        append_chars(out, &item);
        assert(v.take(i + 1 as int).drop_last() =~= v.take(i as int));
        i = i + 1;
        assert(out@ =~= old(out)@ + toc_items(v.take(i as int)));
    }
    assert(v.take(v.len() as int) =~= v);
}

} // verus!
