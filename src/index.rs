//! The decisions of the directory walk: which entries are skipped, how a
//! file node is made, and the order of a directory's children.
use vstd::prelude::*;
use crate::text::{chars_of, contains, contains_chars, string_of};
use crate::toc::{pieces, strip_cr};
use crate::tree::{sort_key, FSElement};

verus! {

/// Whether an entry named `name` is hidden by the ignore list: some entry of
/// the list occurs in the name.
pub open spec fn ignored_by(name: Seq<char>, ignore: Seq<Seq<char>>) -> bool {
    exists|k: int| 0 <= k < ignore.len() && contains(name, #[trigger] ignore[k])
}

/// Whether a name ends in `.md` (case-sensitive).
pub open spec fn is_markdown_name(name: Seq<char>) -> bool {
    name.len() >= 3 && name.subrange(name.len() - 3, name.len() as int) == seq!['.', 'm', 'd']
}

/// The nodes of `s` that have sort key `key`, in their order in `s`.
pub open spec fn with_key(s: Seq<FSElement>, key: int) -> Seq<FSElement>
    decreases s.len(),
{
    if s.len() == 0 {
        s
    } else if sort_key(s.last()) == key {
        with_key(s.drop_last(), key).push(s.last())
    } else {
        with_key(s.drop_last(), key)
    }
}

/// Whether every file child precedes every directory child, at every level.
pub open spec fn files_first(e: FSElement) -> bool
    decreases e,
{
    match e {
        FSElement::Directory(d, _) => {
            &&& (forall|i: int, j: int|
                0 <= i < j < d@.len() ==> sort_key(#[trigger] d@[i]) <= sort_key(#[trigger] d@[j]))
            &&& (forall|i: int| 0 <= i < d@.len() ==> files_first(#[trigger] d@[i]))
        },
        FSElement::File { .. } => true,
    }
}

/// Whether an entry named `name` is hidden by the ignore list: some entry of
/// the list occurs anywhere in the name, so `"x"` hides `"x"`, `"ax"` and
/// `"xa"`.
pub fn is_ignored(name: &str, ignore: &Vec<String>) -> (r: bool)
    ensures
        r == ignored_by(name@, ignore@.map_values(|s: String| s@)),
{
    let n = chars_of(name);
    let ghost list = ignore@.map_values(|s: String| s@);
    let mut k: usize = 0;
    while k < ignore.len()
        invariant
            k <= ignore.len(),
            n@ == name@,
            list == ignore@.map_values(|s: String| s@),
            forall|m: int| 0 <= m < k ==> !contains(name@, #[trigger] list[m]),
        decreases ignore.len() - k,
    {
        let p = chars_of(ignore[k].as_str());
        if contains_chars(&n, &p) {
            assert(contains(name@, list[k as int]));
            return true;
        }
        k = k + 1;
    }
    false
}

/// A file node for the entry `name` at `path`; it is Markdown when the name
/// ends in `.md`.
pub fn file_node(name: String, path: String) -> (r: FSElement)
    ensures
        r == (FSElement::File { name, path, is_md: is_markdown_name(name@) }),
{
    let n = chars_of(name.as_str());
    let l = n.len();
    let is_md = l >= 3 && n[l - 3] == '.' && n[l - 2] == 'm' && n[l - 1] == 'd';
    proof {
        if l >= 3 {
            let tail = name@.subrange(l - 3, l as int);
            assert(is_md ==> tail =~= seq!['.', 'm', 'd']);
            assert(tail == seq!['.', 'm', 'd'] ==> tail[0] == '.' && tail[1] == 'm' && tail[2] == 'd');
        }
    }
    FSElement::File { name, path, is_md }
}

/// The children reordered so that every file precedes every directory, each
/// group in the order given.
pub fn files_then_dirs(children: Vec<FSElement>) -> (r: Vec<FSElement>)
    ensures
        r@ == with_key(children@, 0) + with_key(children@, 1),
{
    let ghost all = children@;
    let mut files: Vec<FSElement> = Vec::new();
    let mut dirs: Vec<FSElement> = Vec::new();
    for e in it: children
        invariant
            it.seq() == all,
            files@ == with_key(all.take(it.index() as int), 0),
            dirs@ == with_key(all.take(it.index() as int), 1),
    {
        let ghost i = it.index() as int;
        assert(all.take(i + 1).drop_last() =~= all.take(i));
        assert(all.take(i + 1).last() == e);
        if e.is_dir() {
            dirs.push(e);
        } else {
            files.push(e);
        }
    }
    assert(all.take(all.len() as int) =~= all);
    files.append(&mut dirs);
    files
}

/// Every node kept by `with_key` has that key and comes from `s`.
proof fn lemma_with_key_members(s: Seq<FSElement>, key: int)
    ensures
        forall|i: int| 0 <= i < with_key(s, key).len() ==> sort_key(#[trigger] with_key(s, key)[i]) == key
            && s.contains(with_key(s, key)[i]),
    decreases s.len(),
{
    if s.len() > 0 {
        lemma_with_key_members(s.drop_last(), key);
        let w = with_key(s, key);
        assert forall|i: int| 0 <= i < w.len() implies sort_key(#[trigger] w[i]) == key && s.contains(w[i]) by {
            if i < with_key(s.drop_last(), key).len() {
                let j = choose|j: int| 0 <= j < s.drop_last().len() && s.drop_last()[j] == w[i];
                assert(s[j] == w[i]);
            } else {
                assert(s[s.len() - 1] == w[i]);
            }
        }
    }
}

/// A directory node named `name` whose children are `children` with every
/// file moved before every directory, each group in the order given.
/// When each child has its files first at every level, so does the result.
pub fn directory_node(children: Vec<FSElement>, name: String) -> (r: FSElement)
    ensures
        r is Directory,
        r->Directory_0@ == with_key(children@, 0) + with_key(children@, 1),
        r->Directory_1 == name,
        (forall|i: int| 0 <= i < children@.len() ==> files_first(#[trigger] children@[i])) ==> files_first(r),
{
    let ghost before = children@;
    let sorted = files_then_dirs(children);
    proof {
        lemma_with_key_members(before, 0);
        lemma_with_key_members(before, 1);
        let f = with_key(before, 0);
        let d = with_key(before, 1);
        assert(sorted@ == f + d);
        assert forall|i: int, j: int| 0 <= i < j < sorted@.len() implies sort_key(#[trigger] sorted@[i]) <= sort_key(#[trigger] sorted@[j]) by {
            if i < f.len() {
                assert(sorted@[i] == f[i]);
            } else {
                assert(sorted@[i] == d[i - f.len()]);
                assert(sorted@[j] == d[j - f.len()]);
            }
            if j < f.len() {
                assert(sorted@[j] == f[j]);
            } else {
                assert(sorted@[j] == d[j - f.len()]);
            }
        }
        if forall|i: int| 0 <= i < before.len() ==> files_first(#[trigger] before[i]) {
            assert forall|i: int| 0 <= i < sorted@.len() implies files_first(#[trigger] sorted@[i]) by {
                if i < f.len() {
                    assert(sorted@[i] == f[i]);
                    assert(before.contains(f[i]));
                } else {
                    assert(sorted@[i] == d[i - f.len()]);
                    assert(before.contains(d[i - f.len()]));
                }
            }
        }
    }
    FSElement::Directory(sorted, name)
}

/// The non-empty lines of `ls`, their carriage returns stripped.
pub open spec fn nonempty_lines(ls: Seq<Seq<char>>) -> Seq<Seq<char>>
    decreases ls.len(),
{
    if ls.len() == 0 {
        Seq::empty()
    } else {
        let l = strip_cr(ls.last());
        let before = nonempty_lines(ls.drop_last());
        if l.len() > 0 { before.push(l) } else { before }
    }
}

/// The ignore list of an ignore file's text: each non-empty line, then the
/// version-control directory `.git`, which is always ignored.
pub open spec fn ignore_list_of(text: Seq<char>) -> Seq<Seq<char>> {
    nonempty_lines(pieces(text)).push(seq!['.', 'g', 'i', 't'])
}

/// Pushes the line `l`, its carriage return stripped, when it is not empty.
fn push_line(out: &mut Vec<String>, l: &Vec<char>)
    ensures
        final(out)@.map_values(|s: String| s@) == if strip_cr(l@).len() > 0 {
            old(out)@.map_values(|s: String| s@).push(strip_cr(l@))
        } else {
            old(out)@.map_values(|s: String| s@)
        },
{
    let mut n: usize = l.len();
    if n > 0 && l[n - 1] == '\r' {
        n = n - 1;
    }
    if n > 0 {
        let mut t: Vec<char> = Vec::new();
        let mut i: usize = 0;
        while i < n
            invariant
                i <= n <= l.len(),
                t@ == l@.take(i as int),
            decreases n - i,
        {
            t.push(l[i]);
            i = i + 1;
            assert(t@ =~= l@.take(i as int));
        }
        assert(t@ =~= strip_cr(l@));
        let ghost before = out@;
        let st = string_of(&t);
        out.push(st);
        assert(out@.map_values(|s: String| s@) =~= before.map_values(|s: String| s@).push(strip_cr(l@)));
    } else {
        assert(strip_cr(l@).len() == 0);
    }
}

/// The ignore list read from an ignore file's text: its non-empty lines,
/// then `.git`.
pub fn ignore_list(text: &str) -> (r: Vec<String>)
    ensures
        r@.map_values(|s: String| s@) == ignore_list_of(text@),
{
    let s = chars_of(text);
    let mut r: Vec<String> = Vec::new();
    let mut cur: Vec<char> = Vec::new();
    let mut i: usize = 0;
    while i < s.len()
        invariant
            i <= s.len(),
            s@ == text@,
            cur@ == pieces(s@.take(i as int)).last(),
            r@.map_values(|s: String| s@) == nonempty_lines(pieces(s@.take(i as int)).drop_last()),
            pieces(s@.take(i as int)).len() >= 1,
        decreases s.len() - i,
    {
        let ghost ps = pieces(s@.take(i as int));
        assert(s@.take(i + 1 as int).drop_last() =~= s@.take(i as int));
        if s[i] == '\n' {
            push_line(&mut r, &cur);
            assert(ps.drop_last().push(ps.last()) =~= ps);
            assert(pieces(s@.take(i + 1 as int)) == ps.push(Seq::empty()));
            assert(ps.push(Seq::<char>::empty()).drop_last() =~= ps);
            cur = Vec::new();
        } else {
            cur.push(s[i]);
            let ghost p2 = pieces(s@.take(i + 1 as int));
            assert(p2 == ps.update(ps.len() - 1, ps.last().push(s@[i as int])));
            assert(p2.drop_last() =~= ps.drop_last());
        }
        i = i + 1;
    }
    assert(s@.take(s.len() as int) =~= s@);
    let ghost ps = pieces(s@);
    push_line(&mut r, &cur);
    assert(ps.drop_last().push(ps.last()) =~= ps);
    let ghost before = r@;
    let git = string_of(&chars_of(".git"));
    r.push(git);
    proof {
        reveal_strlit(".git");
        assert(".git"@ =~= seq!['.', 'g', 'i', 't']);
        assert(r@.map_values(|s: String| s@) =~= before.map_values(|s: String| s@).push(seq!['.', 'g', 'i', 't']));
    }
    r
}

} // verus!
