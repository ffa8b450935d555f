//! The placeholder blocks of a document and their rewrite.
use vstd::prelude::*;
use crate::text::{append_str, chars_of, contains, find_first, first_at, occurs_at, string_of};
use crate::toc::{heads_view, headings, levels_positive, normalized, toc_items, HeadLine};
use crate::toc::{extract_headings, normalize_headings, push_toc_items};
use crate::tree::{render, FSElement};

verus! {

/// Marks where a table of contents is to be placed for the first time.
pub const TOC_FIRST_PREFIX: &'static str = "<!--%toc%-->";
/// Opens a table of contents.
pub const TOC_BEGIN_PREFIX: &'static str = "<!--%table_of_contents_begin%-->";
/// Closes a table of contents.
pub const TOC_END_PREFIX: &'static str = "<!--%table_of_contents_end%-->";
/// Marks where a file structure is to be placed for the first time.
pub const GFS_FIRST_PREFIX: &'static str = "<!--%gfs%-->";
/// Opens a file structure.
pub const GFS_BEGIN_PREFIX: &'static str = "<!--%file_structure_begin%-->";
/// Closes a file structure.
pub const GFS_END_PREFIX: &'static str = "<!--%file_structure_end%-->";

/// Whether a marker can stand as a literal in a pattern: ASCII letters,
/// digits and `<!-%_>` only, and at most 64 of them.
pub open spec fn plain_marker(m: Seq<char>) -> bool {
    &&& 0 < m.len() <= 64
    &&& forall|i: int| 0 <= i < m.len() ==> {
        let c = #[trigger] m[i];
        ('a' <= c && c <= 'z') || ('A' <= c && c <= 'Z') || ('0' <= c && c <= '9') || c == '<'
            || c == '!' || c == '-' || c == '%' || c == '_' || c == '>'
    }
}

/// Whether a region opens at `i`: `begin` occurs there and `end` occurs
/// somewhere after it.
pub open spec fn opens_region(t: Seq<char>, begin: Seq<char>, end: Seq<char>, i: int) -> bool {
    occurs_at(t, begin, i) && exists|j: int| j >= i + begin.len() && occurs_at(t, end, j)
}

/// `t` with its first region replaced by `block`: the region starts at the
/// first `begin` that has an `end` after it, and stops after the nearest such
/// `end`. Without a region, `t` is unchanged.
pub open spec fn replace_region(t: Seq<char>, begin: Seq<char>, end: Seq<char>, block: Seq<char>) -> Seq<char> {
    if exists|i: int| opens_region(t, begin, end, i) {
        let i = choose|i: int|
            opens_region(t, begin, end, i) && forall|k: int| 0 <= k < i ==> !opens_region(t, begin, end, k);
        let j = choose|j: int|
            j >= i + begin.len() && occurs_at(t, end, j) && forall|m: int|
                i + begin.len() <= m < j ==> !occurs_at(t, end, m);
        t.take(i) + block + t.skip(j + end.len())
    } else {
        t
    }
}

/// Relies on regex's `Regex::new` and `Regex::replace` with `NoExpand`. The
/// pattern `begin([\S\s]*?)end` is valid and small: its markers hold only
/// letters, digits and `<!-%_>`, which the syntax reads as themselves outside
/// a class. Its leftmost-first match starts at the first `begin` that has an
/// `end` after it and, being lazy, stops after the nearest such `end`;
/// `replace` substitutes that one match, literally.
#[verifier::external_body]
fn regex_replace_region(text: &str, begin: &str, end: &str, block: &str) -> (r: String)
    requires
        plain_marker(begin@),
        plain_marker(end@),
    ensures
        r@ == replace_region(text@, begin@, end@, block@),
{
    let pattern = format!(r"{}([\S\s]*?){}", begin, end);
    let re = regex::Regex::new(&pattern).unwrap();
    re.replace(text, regex::NoExpand(block)).into_owned()
}

/// The rewritten document. Where `first` occurs, its first occurrence becomes
/// `block`; otherwise the first `begin`..`end` region does; without either,
/// the document is unchanged.
pub open spec fn rewritten(t: Seq<char>, first: Seq<char>, begin: Seq<char>, end: Seq<char>, block: Seq<char>) -> Seq<char> {
    if contains(t, first) {
        let i = choose|i: int| first_at(t, first, i);
        t.take(i) + block + t.skip(i + first.len())
    } else {
        replace_region(t, begin, end, block)
    }
}

/// Rewrites the placeholder block of `text` with `block`, and tells whether
/// the text changed.
pub fn rewrite_block(text: &str, first: &str, begin: &str, end: &str, block: &str) -> (r: (String, bool))
    requires
        plain_marker(begin@),
        plain_marker(end@),
    ensures
        r.0@ == rewritten(text@, first@, begin@, end@, block@),
        r.1 == (r.0@ != text@),
{
    let t = chars_of(text);
    let f = chars_of(first);
    match find_first(&t, &f) {
        Some(i) => {
            proof {
                assert forall|k: int| first_at(t@, f@, k) implies k == i by {
                    if k < i {
                        assert(!occurs_at(t@, f@, k));
                    } else if k > i {
                        assert(!occurs_at(t@, f@, i as int));
                    }
                }
            }
            let mut out: Vec<char> = Vec::new();
            let mut k: usize = 0;
            while k < i
                invariant
                    k <= i,
                    i + f.len() <= t.len(),
                    out@ == t@.take(k as int),
                decreases i - k,
            {
                out.push(t[k]);
                k = k + 1;
                assert(out@ =~= t@.take(k as int));
            }
            append_str(&mut out, block);
            let mut m: usize = i + f.len();
            let ghost mid = out@;
            while m < t.len()
                invariant
                    i + f.len() <= m <= t.len(),
                    out@ == mid + t@.subrange(i + f.len(), m as int),
                decreases t.len() - m,
            {
                out.push(t[m]);
                m = m + 1;
                assert(out@ =~= mid + t@.subrange(i + f.len(), m as int));
            }
            assert(t@.subrange(i + f.len(), t.len() as int) =~= t@.skip(i + f.len()));
            let s = string_of(&out);
            let changed = !same_chars(&out, &t);
            (s, changed)
        },
        None => {
            let s = regex_replace_region(text, begin, end, block);
            let sv = chars_of(s.as_str());
            let changed = !same_chars(&sv, &t);
            (s, changed)
        },
    }
}

/// Whether two character sequences are equal.
fn same_chars(a: &Vec<char>, b: &Vec<char>) -> (r: bool)
    ensures
        r == (a@ == b@),
{
    if a.len() != b.len() {
        return false;
    }
    let mut i: usize = 0;
    while i < a.len()
        invariant
            a.len() == b.len(),
            i <= a.len(),
            forall|k: int| 0 <= k < i ==> a@[k] == b@[k],
        decreases a.len() - i,
    {
        if a[i] != b[i] {
            return false;
        }
        i = i + 1;
    }
    assert(a@ =~= b@);
    true
}

/// The table-of-contents block: the opening marker, one list item per
/// heading, the line with the time of the update, and the closing marker.
pub open spec fn toc_block_text(hs: Seq<(int, Seq<char>)>, stamp: Seq<char>) -> Seq<char> {
    TOC_BEGIN_PREFIX@ + seq!['\n'] + toc_items(hs) + "<sup><sup>Last update: "@ + stamp
        + "</sup></sup>\n"@ + TOC_END_PREFIX@
}

/// The table-of-contents block for the headings `hs`, updated at `stamp`.
pub fn toc_block(hs: &Vec<HeadLine>, stamp: &str) -> (r: String)
    requires
        levels_positive(hs@),
    ensures
        r@ == toc_block_text(heads_view(hs@), stamp@),
{
    let mut out: Vec<char> = Vec::new();
    append_str(&mut out, TOC_BEGIN_PREFIX);
    out.push('\n');
    push_toc_items(&mut out, hs);
    append_str(&mut out, "<sup><sup>Last update: ");
    append_str(&mut out, stamp);
    append_str(&mut out, "</sup></sup>\n");
    append_str(&mut out, TOC_END_PREFIX);
    assert(out@ =~= toc_block_text(heads_view(hs@), stamp@));
    string_of(&out)
}

/// The file-structure block around a rendering: the opening marker, the
/// rendering, and the closing marker, each on a line of its own. The block
/// ends with the closing marker, so that a rewrite replaces exactly it.
pub open spec fn structure_block_text(md: Seq<char>) -> Seq<char> {
    GFS_BEGIN_PREFIX@ + seq!['\n'] + md + seq!['\n'] + GFS_END_PREFIX@
}

/// The file-structure block around the rendering `md`.
pub fn structure_block(md: &str) -> (r: String)
    ensures
        r@ == structure_block_text(md@),
{
    let mut out: Vec<char> = Vec::new();
    append_str(&mut out, GFS_BEGIN_PREFIX);
    out.push('\n');
    append_str(&mut out, md);
    out.push('\n');
    append_str(&mut out, GFS_END_PREFIX);
    assert(out@ =~= structure_block_text(md@));
    string_of(&out)
}

/// The opening and closing markers can stand as literals in a pattern.
proof fn lemma_markers_plain()
    ensures
        plain_marker(TOC_BEGIN_PREFIX@),
        plain_marker(TOC_END_PREFIX@),
        plain_marker(GFS_BEGIN_PREFIX@),
        plain_marker(GFS_END_PREFIX@),
{
    reveal_strlit("<!--%table_of_contents_begin%-->");
    reveal_strlit("<!--%table_of_contents_end%-->");
    reveal_strlit("<!--%file_structure_begin%-->");
    reveal_strlit("<!--%file_structure_end%-->");
}

/// The document with its table of contents rewritten from its own headings,
/// updated at `stamp`.
pub open spec fn toc_document(text: Seq<char>, stamp: Seq<char>) -> Seq<char> {
    rewritten(
        text,
        TOC_FIRST_PREFIX@,
        TOC_BEGIN_PREFIX@,
        TOC_END_PREFIX@,
        toc_block_text(normalized(headings(text)), stamp),
    )
}

/// Rewrites the table of contents of `text` from its headings, with `stamp`
/// as the time of the update, and tells whether the text changed.
pub fn update_toc(text: &str, stamp: &str) -> (r: (String, bool))
    ensures
        r.0@ == toc_document(text@, stamp@),
        r.1 == (r.0@ != text@),
{
    let hs = extract_headings(text);
    let hs = normalize_headings(hs);
    let block = toc_block(&hs, stamp);
    proof {
        lemma_markers_plain();
    }
    rewrite_block(text, TOC_FIRST_PREFIX, TOC_BEGIN_PREFIX, TOC_END_PREFIX, block.as_str())
}

/// Relies on chrono's `Local::now` and `DelayedFormat` with `%d.%m.%Y %H:%M`:
/// the local time, as day.month.year hour:minute. It depends on the clock
/// and the machine's time zone, so nothing is stated of it.
#[verifier::external_body]
fn local_timestamp() -> String {
    chrono::Local::now().format("%d.%m.%Y %H:%M").to_string()
}

/// Rewrites the table of contents of `text` from its headings, with the
/// local time now as the time of the update, and tells whether the text
/// changed.
pub fn update_toc_now(text: &str) -> (r: (String, bool))
    ensures
        exists|stamp: Seq<char>| r.0@ == toc_document(text@, stamp),
        r.1 == (r.0@ != text@),
{
    let stamp = local_timestamp();
    update_toc(text, stamp.as_str())
}

/// The document with its file structure rewritten from the rendering of the
/// directory `dir`.
pub open spec fn structure_document(text: Seq<char>, dir: FSElement, dir_only: bool) -> Seq<char> {
    rewritten(
        text,
        GFS_FIRST_PREFIX@,
        GFS_BEGIN_PREFIX@,
        GFS_END_PREFIX@,
        structure_block_text(render(dir, dir_only)),
    )
}

/// Rewrites the file structure of `text` from the directory `dir` that holds
/// the document, and tells whether the text changed.
pub fn update_structure(text: &str, dir: &FSElement, dir_only: bool) -> (r: (String, bool))
    ensures
        r.0@ == structure_document(text@, *dir, dir_only),
        r.1 == (r.0@ != text@),
{
    let md = dir.to_md(dir_only);
    apply_structure(text, md.as_str())
}

/// Rewrites the file structure of `text` with the rendering `md`, and tells
/// whether the text changed.
pub fn apply_structure(text: &str, md: &str) -> (r: (String, bool))
    ensures
        r.0@ == rewritten(text@, GFS_FIRST_PREFIX@, GFS_BEGIN_PREFIX@, GFS_END_PREFIX@, structure_block_text(md@)),
        r.1 == (r.0@ != text@),
{
    let block = structure_block(md);
    proof {
        lemma_markers_plain();
    }
    rewrite_block(text, GFS_FIRST_PREFIX, GFS_BEGIN_PREFIX, GFS_END_PREFIX, block.as_str())
}

/// A Markdown file whose file structure is to be rewritten, with the
/// rendering of the directory that holds it.
pub struct StructureJob {
    pub name: String,
    pub path: String,
    pub rendering: String,
}

/// The view of a job: name, path and rendering.
pub open spec fn job_view(j: StructureJob) -> (Seq<char>, Seq<char>, Seq<char>) {
    (j.name@, j.path@, j.rendering@)
}

/// The jobs for the first `n` children `s` of the directory `parent`: a
/// Markdown file child takes the rendering of `parent`; a directory child
/// gives its own jobs.
pub open spec fn jobs_in(parent: FSElement, s: Seq<FSElement>, n: int, dir_only: bool) -> Seq<(Seq<char>, Seq<char>, Seq<char>)>
    decreases s, n,
{
    if n <= 0 || n > s.len() {
        Seq::empty()
    } else {
        let before = jobs_in(parent, s, n - 1, dir_only);
        match s[n - 1] {
            FSElement::File { name, path, is_md } => if is_md {
                before.push((name@, path@, render(parent, dir_only)))
            } else {
                before
            },
            FSElement::Directory(_, _) => before + structure_jobs(s[n - 1], dir_only),
        }
    }
}

/// The jobs of a directory and everything below it, in depth-first order;
/// none for a file.
pub open spec fn structure_jobs(e: FSElement, dir_only: bool) -> Seq<(Seq<char>, Seq<char>, Seq<char>)>
    decreases e, 0int,
{
    match e {
        FSElement::Directory(d, _) => jobs_in(e, d@, d@.len() as int, dir_only),
        FSElement::File { .. } => Seq::empty(),
    }
}

/// The views of a list of jobs.
pub open spec fn jobs_view(js: Seq<StructureJob>) -> Seq<(Seq<char>, Seq<char>, Seq<char>)> {
    js.map_values(|j: StructureJob| job_view(j))
}

/// The file-structure jobs of the tree `e`: each Markdown file, with the
/// rendering of the directory that directly holds it.
pub fn structure_targets(e: &FSElement, dir_only: bool) -> (r: Vec<StructureJob>)
    ensures
        jobs_view(r@) == structure_jobs(*e, dir_only),
{
    let mut out: Vec<StructureJob> = Vec::new();
    collect_jobs(&mut out, e, dir_only);
    assert(jobs_view(out@) =~= structure_jobs(*e, dir_only));
    out
}

fn collect_jobs(out: &mut Vec<StructureJob>, e: &FSElement, dir_only: bool)
    ensures
        jobs_view(final(out)@) == jobs_view(old(out)@) + structure_jobs(*e, dir_only),
    decreases e,
{
    match e {
        FSElement::Directory(d, _) => {
            let mut i: usize = 0;
            while i < d.len()
                invariant
                    i <= d.len(),
                    *e == FSElement::Directory(*d, e->Directory_1),
                    jobs_view(out@) == jobs_view(old(out)@) + jobs_in(*e, d@, i as int, dir_only),
                decreases d.len() - i,
            {
                let ghost before = out@;
                match &d[i] {
                    FSElement::File { name, path, is_md } => {
                        if *is_md {
                            let rendering = e.to_md(dir_only);
                            let job = StructureJob { name: name.clone(), path: path.clone(), rendering };
                            out.push(job);
                            assert(jobs_view(out@) =~= jobs_view(before).push(job_view(job)));
                        }
                    },
                    FSElement::Directory(_, _) => {
                        proof {
                            vstd::std_specs::vec::axiom_vec_index_decreases(*d, i as int);
                            assert(decreases_to!(*e => e->Directory_0));
                        }
                        collect_jobs(out, &d[i], dir_only);
                    },
                }
                i = i + 1;
                assert(jobs_view(out@) =~= jobs_view(old(out)@) + jobs_in(*e, d@, i as int, dir_only));
            }
        },
        FSElement::File { .. } => {
            assert(jobs_view(out@) =~= jobs_view(old(out)@) + structure_jobs(*e, dir_only));
        },
    }
}

/// A rewrite leaves a document unchanged when it already holds the block
/// that the rewrite would write: `p`, then `begin`, `content` and `end`, then
/// `q`, where the first-use marker does not occur, no `begin` starts before
/// the block, and no `end` starts inside the block before its own. So
/// rewriting twice with nothing changed gives the same document both times.
pub proof fn lemma_rewrite_stable(
    p: Seq<char>,
    content: Seq<char>,
    q: Seq<char>,
    first: Seq<char>,
    begin: Seq<char>,
    end: Seq<char>,
)
    requires
        !contains(p + (begin + content + end) + q, first),
        forall|k: int| 0 <= k < p.len() ==> !occurs_at(p + (begin + content + end) + q, begin, k),
        forall|m: int|
            p.len() + begin.len() <= m < p.len() + begin.len() + content.len() ==> !occurs_at(
                p + (begin + content + end) + q,
                end,
                m,
            ),
    ensures
        rewritten(p + (begin + content + end) + q, first, begin, end, begin + content + end) == p + (
        begin + content + end) + q,
{
    let block = begin + content + end;
    let r = p + block + q;
    let i0 = p.len() as int;
    let j0 = (p.len() + begin.len() + content.len()) as int;
    assert(r.subrange(i0, i0 + begin.len()) =~= begin);
    assert(r.subrange(j0, j0 + end.len()) =~= end);
    assert(occurs_at(r, end, j0));
    assert(opens_region(r, begin, end, i0));
    let i = choose|i: int|
        opens_region(r, begin, end, i) && forall|k: int| 0 <= k < i ==> !opens_region(r, begin, end, k);
    assert(opens_region(r, begin, end, i) && forall|k: int| 0 <= k < i ==> !opens_region(r, begin, end, k));
    assert(i == i0);
    let j = choose|j: int|
        j >= i + begin.len() && occurs_at(r, end, j) && forall|m: int|
            i + begin.len() <= m < j ==> !occurs_at(r, end, m);
    assert(j >= i + begin.len() && occurs_at(r, end, j) && forall|m: int|
            i + begin.len() <= m < j ==> !occurs_at(r, end, m));
    assert(j == j0);
    assert(r.take(i) + block + r.skip(j + end.len()) =~= r);
}

} // verus!
