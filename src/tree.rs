//! The directory tree: its nodes, their order, and their Markdown rendering.
use vstd::prelude::*;
use crate::text::{append_chars, append_str, string_of};

verus! {

/// A node of the directory tree.
pub enum FSElement {
    /// The children, then the display name.
    Directory(Vec<FSElement>, String),
    /// A file: display name, path, and whether the name ends in `.md`.
    File { name: String, path: String, is_md: bool },
}

/// The order key of a node: files before directories.
pub open spec fn sort_key(e: FSElement) -> int {
    match e {
        FSElement::Directory(_, _) => 1,
        FSElement::File { .. } => 0,
    }
}

/// Whether a child is drawn in the structure rendering.
pub open spec fn is_shown(e: FSElement, dir_only: bool) -> bool {
    !dir_only || e is Directory
}

/// The fixed prefix that joins the lines of a directory's rendering.
pub open spec fn line_join() -> Seq<char> {
    seq![' ', ' ', '\n', '│', '&', 'e', 'm', 's', 'p', ';']
}

/// Each line break of `s` becomes the indenting join.
pub open spec fn indent_breaks(s: Seq<char>) -> Seq<char>
    decreases s.len(),
{
    if s.len() == 0 {
        s
    } else if s.last() == '\n' {
        indent_breaks(s.drop_last()) + line_join()
    } else {
        indent_breaks(s.drop_last()).push(s.last())
    }
}

/// A path with every backslash turned into a forward slash.
pub open spec fn forward_slashes(p: Seq<char>) -> Seq<char> {
    p.map_values(|c: char| if c == '\\' { '/' } else { c })
}

/// The index of the last shown child among the first `n`, or -1.
pub open spec fn last_shown(s: Seq<FSElement>, n: int, dir_only: bool) -> int
    decreases n,
{
    if n <= 0 {
        -1
    } else if is_shown(s[n - 1], dir_only) {
        n - 1
    } else {
        last_shown(s, n - 1, dir_only)
    }
}

/// The branch glyph before a child: the terminal one for the last shown child.
pub open spec fn branch_glyph(is_last: bool) -> char {
    if is_last { '└' } else { '├' }
}

/// The lines that the first `n` children contribute to their directory's
/// rendering; `last` is the index of the last shown child.
pub open spec fn children_text(s: Seq<FSElement>, n: int, last: int, dir_only: bool) -> Seq<char>
    decreases s, n,
{
    if n <= 0 || n > s.len() {
        Seq::empty()
    } else {
        let e = s[n - 1];
        let before = children_text(s, n - 1, last, dir_only);
        if is_shown(e, dir_only) {
            before.push(branch_glyph(n - 1 == last)).push('─') + render(e, dir_only) + seq![' ', ' ', '\n']
        } else {
            before
        }
    }
}

/// The header line of a directory, before its children.
pub open spec fn dir_header(name: Seq<char>) -> Seq<char> {
    seq!['📁'] + name + seq![' ', ' ', '\n']
}

/// The Markdown rendering of a node. A directory is its header line and one
/// line per shown child (a branch glyph, then the child's own rendering),
/// with every line break but the last turned into the indenting join. A file
/// is a link to its path.
pub open spec fn render(e: FSElement, dir_only: bool) -> Seq<char>
    decreases e, 0int,
{
    match e {
        FSElement::Directory(d, name) => {
            let raw = dir_header(name@) + children_text(d@, d@.len() as int, last_shown(d@, d@.len() as int, dir_only), dir_only);
            indent_breaks(raw.drop_last())
        },
        FSElement::File { name, path, .. } => {
            seq!['[', '📄'] + name@ + seq![']', '(', '<'] + forward_slashes(path@) + seq!['>', ')']
        },
    }
}


/// The name and path of a file node.
pub open spec fn file_entry(e: FSElement) -> (Seq<char>, Seq<char>) {
    match e {
        FSElement::File { name, path, .. } => (name@, path@),
        FSElement::Directory(_, _) => (Seq::empty(), Seq::empty()),
    }
}

/// The Markdown files among the first `n` nodes of `s` and below them, in
/// depth-first pre-order.
pub open spec fn markdown_entries(s: Seq<FSElement>, n: int) -> Seq<(Seq<char>, Seq<char>)>
    decreases s, n,
{
    if n <= 0 || n > s.len() {
        Seq::empty()
    } else {
        markdown_entries(s, n - 1) + markdown_below(s[n - 1])
    }
}

/// The Markdown files at and below a node, in depth-first pre-order.
pub open spec fn markdown_below(e: FSElement) -> Seq<(Seq<char>, Seq<char>)>
    decreases e, 0int,
{
    match e {
        FSElement::Directory(d, _) => markdown_entries(d@, d@.len() as int),
        FSElement::File { name, path, is_md } => if is_md {
            seq![(name@, path@)]
        } else {
            Seq::empty()
        },
    }
}

/// The Markdown files below a directory; none for a file.
pub open spec fn markdown_files(e: FSElement) -> Seq<(Seq<char>, Seq<char>)> {
    match e {
        FSElement::Directory(_, _) => markdown_below(e),
        FSElement::File { .. } => Seq::empty(),
    }
}

/// Whether every node of `s` is a Markdown file node.
pub open spec fn all_markdown_files(s: Seq<FSElement>) -> bool {
    forall|i: int| 0 <= i < s.len() ==> (#[trigger] s[i] is File && s[i]->is_md)
}

/// Appends `p` to `out` with every backslash turned into a forward slash.
fn push_forward_slashes(out: &mut Vec<char>, p: &Vec<char>)
    ensures
        final(out)@ == old(out)@ + forward_slashes(p@),
{
    let mut i: usize = 0;
    while i < p.len()
        invariant
            i <= p.len(),
            out@ == old(out)@ + forward_slashes(p@.take(i as int)),
        decreases p.len() - i,
    {
        let c = p[i];
        out.push(if c == '\\' { '/' } else { c });
        i = i + 1;
        assert(forward_slashes(p@.take(i as int)) =~= forward_slashes(p@.take(i - 1 as int)).push(
            if c == '\\' { '/' } else { c },
        ));
    }
    assert(p@.take(p.len() as int) =~= p@);
}

/// Turns every line break of `s` into the indenting join.
fn push_indent_breaks(out: &mut Vec<char>, s: &Vec<char>, n: usize)
    requires
        n <= s.len(),
    ensures
        final(out)@ == old(out)@ + indent_breaks(s@.take(n as int)),
{
    let mut i: usize = 0;
    while i < n
        invariant
            i <= n <= s.len(),
            out@ == old(out)@ + indent_breaks(s@.take(i as int)),
        decreases n - i,
    {
        let c = s[i];
        assert(s@.take(i + 1 as int).drop_last() =~= s@.take(i as int));
        if c == '\n' {
            append_str(out, "  \n│&emsp;");
            proof {
                reveal_strlit("  \n│&emsp;");
                assert("  \n│&emsp;"@ =~= line_join());
            }
        } else {
            out.push(c);
        }
        i = i + 1;
        assert(out@ =~= old(out)@ + indent_breaks(s@.take(i as int)));
    }
}

impl FSElement {
    /// The order key: 0 for a file, 1 for a directory.
    pub fn sort_value(&self) -> (r: i8)
        ensures
            r as int == sort_key(*self),
    {
        match self {
            FSElement::Directory(_, _) => 1,
            FSElement::File { .. } => 0,
        }
    }

    /// Whether the node is a directory.
    pub fn is_dir(&self) -> (r: bool)
        ensures
            r == self is Directory,
    {
        match self {
            FSElement::Directory(_, _) => true,
            FSElement::File { .. } => false,
        }
    }

    /// The Markdown rendering of the node; with `dir_only`, files below a
    /// directory are left out.
    pub fn to_md(&self, dir_only: bool) -> (r: String)
        ensures
            r@ == render(*self, dir_only),
        decreases self,
    {
        let v = self.render_chars(dir_only);
        string_of(&v)
    }

    fn render_chars(&self, dir_only: bool) -> (r: Vec<char>)
        ensures
            r@ == render(*self, dir_only),
        decreases self, 1int,
    {
        match self {
            FSElement::Directory(d, name) => {
                // one more than the index of the last shown child, 0 if none
                let mut last1: usize = 0;
                let mut k: usize = 0;
                while k < d.len()
                    invariant
                        k <= d.len(),
                        last1 as int == last_shown(d@, k as int, dir_only) + 1,
                    decreases d.len() - k,
                {
                    if !dir_only || d[k].is_dir() {
                        last1 = k + 1;
                    }
                    k = k + 1;
                }
                let ghost lst = last_shown(d@, d@.len() as int, dir_only);
                let mut raw: Vec<char> = Vec::new();
                raw.push('📁');
                append_str(&mut raw, name.as_str());
                raw.push(' ');
                raw.push(' ');
                raw.push('\n');
                assert(raw@ =~= dir_header(name@) + children_text(d@, 0, lst, dir_only));
                let mut i: usize = 0;
                while i < d.len()
                    invariant
                        i <= d.len(),
                        last1 as int == lst + 1,
                        *self == FSElement::Directory(*d, *name),
                        raw@ == dir_header(name@) + children_text(d@, i as int, lst, dir_only),
                    decreases d.len() - i,
                {
                    let e = &d[i];
                    if !dir_only || e.is_dir() {
                        raw.push(if i + 1 == last1 { '└' } else { '├' });
                        raw.push('─');
                        proof {
                            vstd::std_specs::vec::axiom_vec_index_decreases(*d, i as int);
                            assert(*self == FSElement::Directory(*d, *name));
                            assert(decreases_to!(*self => self->Directory_0));
                            assert(decreases_to!(*self => d[i as int]));
                        }
                        let sub = e.render_chars(dir_only);
                        append_chars(&mut raw, &sub);
                        raw.push(' ');
                        raw.push(' ');
                        raw.push('\n');
                    }
                    i = i + 1;
                    assert(raw@ =~= dir_header(name@) + children_text(d@, i as int, lst, dir_only));
                }
                let mut out: Vec<char> = Vec::new();
                push_indent_breaks(&mut out, &raw, raw.len() - 1);
                assert(raw@.take(raw.len() - 1) =~= raw@.drop_last());
                out
            },
            FSElement::File { name, path, .. } => {
                let mut out: Vec<char> = Vec::new();
                out.push('[');
                out.push('📄');
                append_str(&mut out, name.as_str());
                out.push(']');
                out.push('(');
                out.push('<');
                let p = crate::text::chars_of(path.as_str());
                push_forward_slashes(&mut out, &p);
                out.push('>');
                out.push(')');
                assert(out@ =~= render(*self, dir_only));
                out
            },
        }
    }
    /// The Markdown files below this directory, in depth-first pre-order;
    /// none for a file.
    pub fn get_markdowns(&self) -> (r: Vec<FSElement>)
        ensures
            all_markdown_files(r@),
            r@.map_values(|e: FSElement| file_entry(e)) == markdown_files(*self),
    {
        let mut v: Vec<FSElement> = Vec::new();
        if let FSElement::Directory(d, _) = self {
            collect_markdowns(&mut v, d);
        }
        assert(v@.map_values(|e: FSElement| file_entry(e)) =~= markdown_files(*self));
        v
    }
}

/// Appends the Markdown files at and below the nodes of `nodes` to `v`.
fn collect_markdowns(v: &mut Vec<FSElement>, nodes: &Vec<FSElement>)
    requires
        all_markdown_files(old(v)@),
    ensures
        all_markdown_files(final(v)@),
        final(v)@.map_values(|e: FSElement| file_entry(e)) == old(v)@.map_values(
            |e: FSElement| file_entry(e),
        ) + markdown_entries(nodes@, nodes@.len() as int),
    decreases nodes,
{
    let mut i: usize = 0;
    while i < nodes.len()
        invariant
            i <= nodes.len(),
            all_markdown_files(v@),
            v@.map_values(|e: FSElement| file_entry(e)) == old(v)@.map_values(
                |e: FSElement| file_entry(e),
            ) + markdown_entries(nodes@, i as int),
        decreases nodes.len() - i,
    {
        let ghost before = v@;
        match &nodes[i] {
            FSElement::Directory(d, _) => {
                proof {
                    vstd::std_specs::vec::axiom_vec_index_decreases(*nodes, i as int);
                    assert(decreases_to!(nodes[i as int] => nodes[i as int]->Directory_0));
                }
                collect_markdowns(v, d);
                assert(markdown_below(nodes@[i as int]) == markdown_entries(d@, d@.len() as int));
            },
            FSElement::File { name, path, is_md } => {
                if *is_md {
                    v.push(FSElement::File { name: name.clone(), path: path.clone(), is_md: true });
                    assert(v@.map_values(|e: FSElement| file_entry(e)) =~= before.map_values(
                        |e: FSElement| file_entry(e),
                    ).push((name@, path@)));
                    assert(markdown_below(nodes@[i as int]) =~= seq![(name@, path@)]);
                } else {
                    assert(markdown_below(nodes@[i as int]) =~= Seq::empty());
                }
            },
        }
        assert(markdown_entries(nodes@, i + 1 as int) == markdown_entries(nodes@, i as int)
            + markdown_below(nodes@[i as int]));
        i = i + 1;
        assert(v@.map_values(|e: FSElement| file_entry(e)) =~= old(v)@.map_values(
            |e: FSElement| file_entry(e),
        ) + markdown_entries(nodes@, i as int));
    }
}

/// The directory nodes of `s`, in order.
pub open spec fn directories(s: Seq<FSElement>) -> Seq<FSElement>
    decreases s.len(),
{
    if s.len() == 0 {
        s
    } else if s.last() is Directory {
        directories(s.drop_last()).push(s.last())
    } else {
        directories(s.drop_last())
    }
}

proof fn lemma_directories_concat(a: Seq<FSElement>, b: Seq<FSElement>)
    ensures
        directories(a + b) == directories(a) + directories(b),
    decreases b.len(),
{
    if b.len() == 0 {
        assert(a + b =~= a);
        assert(directories(a) + directories(b) =~= directories(a));
    } else {
        lemma_directories_concat(a, b.drop_last());
        assert((a + b).drop_last() =~= a + b.drop_last());
        assert((a + b).last() == b.last());
        if b.last() is Directory {
            assert(directories(a) + directories(b) =~= (directories(a) + directories(b.drop_last())).push(b.last()));
        } else {
            assert(directories(a) + directories(b) =~= directories(a) + directories(b.drop_last()));
        }
    }
}

proof fn lemma_directories_empty(s: Seq<FSElement>)
    ensures
        directories(s).len() == 0 <==> forall|k: int| 0 <= k < s.len() ==> !(#[trigger] s[k] is Directory),
    decreases s.len(),
{
    if s.len() > 0 {
        lemma_directories_empty(s.drop_last());
        if !(s.last() is Directory) {
            assert forall|k: int| 0 <= k < s.len() - 1 implies #[trigger] s[k] == s.drop_last()[k] by {}
            if directories(s).len() == 0 {
                assert forall|k: int| 0 <= k < s.len() implies !(#[trigger] s[k] is Directory) by {
                    if k < s.len() - 1 {
                        assert(s[k] == s.drop_last()[k]);
                    }
                }
            }
        }
        if forall|k: int| 0 <= k < s.len() ==> !(#[trigger] s[k] is Directory) {
            assert(!(s[s.len() - 1] is Directory));
            assert forall|k: int| 0 <= k < s.len() - 1 implies !(#[trigger] s.drop_last()[k] is Directory) by {
                assert(s[k] == s.drop_last()[k]);
            }
        }
    }
}

proof fn lemma_last_shown_dirs(s: Seq<FSElement>, m: int, n: int)
    requires
        0 <= n <= m <= s.len(),
    ensures
        last_shown(s, m, true) < n <==> forall|k: int| n <= k < m ==> !(#[trigger] s[k] is Directory),
        last_shown(s, m, true) < m,
    decreases m,
{
    if m > 0 {
        if m - 1 >= n {
            lemma_last_shown_dirs(s, m - 1, n);
        }
        if !(s[m - 1] is Directory) && m - 1 < n {
            lemma_last_shown_dirs(s, m - 1, m - 1);
        }
    }
}

/// Shown with directories only, the children of a directory draw exactly
/// the lines that their directory children alone draw: no file adds a line,
/// and the terminal branch glyph goes to the last directory child.
pub proof fn lemma_directories_only_lines(s: Seq<FSElement>)
    ensures
        children_text(s, s.len() as int, last_shown(s, s.len() as int, true), true) == children_text(
            directories(s),
            directories(s).len() as int,
            directories(s).len() - 1,
            true,
        ),
{
    lemma_directories_only_prefix(s, s.len() as int);
    assert(s.take(s.len() as int) =~= s);
}

proof fn lemma_directories_only_prefix(s: Seq<FSElement>, n: int)
    requires
        0 <= n <= s.len(),
    ensures
        children_text(s, n, last_shown(s, s.len() as int, true), true) == children_text(
            directories(s),
            directories(s.take(n)).len() as int,
            directories(s).len() - 1,
            true,
        ),
    decreases n,
{
    let ds = directories(s);
    let big_l = last_shown(s, s.len() as int, true);
    assert(s.take(n) + s.skip(n) =~= s);
    lemma_directories_concat(s.take(n), s.skip(n));
    if n > 0 {
        lemma_directories_only_prefix(s, n - 1);
        let e = s[n - 1];
        assert(s.take(n).drop_last() =~= s.take(n - 1));
        assert(s.take(n).last() == e);
        let c0 = directories(s.take(n - 1)).len() as int;
        if e is Directory {
            assert(directories(s.take(n)) == directories(s.take(n - 1)).push(e));
            assert(ds[c0] == e);
            lemma_directories_empty(s.skip(n));
            lemma_last_shown_dirs(s, s.len() as int, n);
            lemma_last_shown_dirs(s, s.len() as int, n - 1);
            assert forall|k: int| n <= k < s.len() implies #[trigger] s[k] == s.skip(n)[k - n] by {}
            if big_l == n - 1 {
                assert forall|k: int| 0 <= k < s.skip(n).len() implies !(#[trigger] s.skip(n)[k] is Directory) by {
                    assert(s.skip(n)[k] == s[k + n]);
                }
            } else {
                assert(big_l >= n);
                let k = choose|k: int| n <= k < s.len() && (#[trigger] s[k] is Directory);
                assert(s.skip(n)[k - n] is Directory);
            }
            assert((n - 1 == big_l) == (c0 == ds.len() - 1));
        } else {
            assert(directories(s.take(n)) == directories(s.take(n - 1)));
        }
    }
}

} // verus!
