use markdown_utils::index::{directory_node, file_node, ignore_list, is_ignored};
use markdown_utils::rewrite::{
    apply_structure, rewrite_block, structure_block, structure_targets, toc_block, update_structure,
    update_toc, update_toc_now, GFS_BEGIN_PREFIX, GFS_END_PREFIX, GFS_FIRST_PREFIX, TOC_BEGIN_PREFIX,
    TOC_END_PREFIX, TOC_FIRST_PREFIX,
};
use markdown_utils::text::{chars_of, contains_chars, find_first, string_of};
use markdown_utils::toc::{extract_headings, normalize_headings, HeadLine};
use markdown_utils::tree::FSElement;

fn file(name: &str, path: &str) -> FSElement {
    file_node(name.to_string(), path.to_string())
}

fn dir(children: Vec<FSElement>, name: &str) -> FSElement {
    FSElement::Directory(children, name.to_string())
}

fn levels(hs: &[HeadLine]) -> Vec<usize> {
    hs.iter().map(|h| h.intend).collect()
}

#[test]
fn sort_value_and_is_dir() {
    let f = file("a.md", "./a.md");
    let d = dir(vec![], "d");
    assert_eq!(f.sort_value(), 0);
    assert_eq!(d.sort_value(), 1);
    assert!(!f.is_dir());
    assert!(d.is_dir());
}

#[test]
fn file_node_marks_markdown_by_suffix() {
    assert!(matches!(file("README.md", "x"), FSElement::File { is_md: true, .. }));
    assert!(matches!(file("notes.MD", "x"), FSElement::File { is_md: false, .. }));
    assert!(matches!(file("md", "x"), FSElement::File { is_md: false, .. }));
    assert!(matches!(file(".md", "x"), FSElement::File { is_md: true, .. }));
}

#[test]
fn file_renders_as_link_with_forward_slashes() {
    let f = file("a b.md", ".\\docs\\a b.md");
    assert_eq!(f.to_md(false), "[📄a b.md](<./docs/a b.md>)");
}

#[test]
fn directory_renders_with_branches_and_indent() {
    let d = dir(vec![file("a.md", "./a.md"), dir(vec![], "sub")], "root");
    assert_eq!(
        d.to_md(false),
        "📁root    \n│&emsp;├─[📄a.md](<./a.md>)    \n│&emsp;└─📁sub    "
    );
}

#[test]
fn nested_directory_lines_are_indented() {
    let inner = dir(vec![file("b.txt", "./s/b.txt")], "s");
    let d = dir(vec![inner], "r");
    assert_eq!(
        d.to_md(false),
        "📁r    \n│&emsp;└─📁s      \n│&emsp;│&emsp;└─[📄b.txt](<./s/b.txt>)    "
    );
}

#[test]
fn directories_only_rendering_skips_files() {
    let sub = dir(vec![file("c.md", "./x/c.md")], "x");
    let d = dir(vec![file("a.md", "./a.md"), sub, file("b.md", "./b.md")], "root");
    let out = d.to_md(true);
    assert!(!out.contains("📄"));
    assert_eq!(out, "📁root    \n│&emsp;└─📁x    ");
}

#[test]
fn directories_only_last_glyph_goes_to_last_directory() {
    let d = dir(
        vec![file("a.md", "./a.md"), dir(vec![], "x"), dir(vec![], "y"), file("z.md", "./z.md")],
        "root",
    );
    let out = d.to_md(true);
    assert_eq!(out, "📁root    \n│&emsp;├─📁x      \n│&emsp;└─📁y    ");
}

#[test]
fn get_markdowns_collects_in_preorder() {
    let sub = dir(vec![file("c.md", "./s/c.md"), file("d.txt", "./s/d.txt")], "s");
    let root = dir(vec![file("a.md", "./a.md"), sub, file("b.md", "./b.md")], "./");
    let found = root.get_markdowns();
    let names: Vec<&str> = found
        .iter()
        .map(|e| match e {
            FSElement::File { name, .. } => name.as_str(),
            FSElement::Directory(_, _) => "",
        })
        .collect();
    assert_eq!(names, vec!["a.md", "c.md", "b.md"]);
    assert!(file("a.md", "./a.md").get_markdowns().is_empty());
}

#[test]
fn ignore_is_substring_match() {
    let ignore = vec!["x".to_string()];
    assert!(is_ignored("x", &ignore));
    assert!(is_ignored("ax", &ignore));
    assert!(is_ignored("xa", &ignore));
    assert!(!is_ignored("y", &ignore));
    let ignore = vec!["node_modules".to_string()];
    assert!(is_ignored("node_modules_extra", &ignore));
    assert!(!is_ignored("node_mod", &ignore));
    let ignore = vec!["target".to_string()];
    assert!(is_ignored("target-old", &ignore));
    assert!(!is_ignored("anything", &Vec::new()));
}

#[test]
fn ignore_list_keeps_nonempty_lines_and_git() {
    let l = ignore_list("target\n\nnode_modules\r\n");
    assert_eq!(l, vec!["target".to_string(), "node_modules".to_string(), ".git".to_string()]);
    assert_eq!(ignore_list(""), vec![".git".to_string()]);
}

#[test]
fn directory_node_puts_files_first() {
    let d = directory_node(
        vec![dir(vec![], "d1"), file("f1", "./f1"), dir(vec![], "d2"), file("f2", "./f2")],
        "root".to_string(),
    );
    match d {
        FSElement::Directory(children, name) => {
            assert_eq!(name, "root");
            let keys: Vec<i8> = children.iter().map(|c| c.sort_value()).collect();
            assert_eq!(keys, vec![0, 0, 1, 1]);
            let names: Vec<String> = children
                .iter()
                .map(|c| match c {
                    FSElement::File { name, .. } => name.clone(),
                    FSElement::Directory(_, n) => n.clone(),
                })
                .collect();
            assert_eq!(names, vec!["f1", "f2", "d1", "d2"]);
        }
        FSElement::File { .. } => panic!("not a directory"),
    }
}

#[test]
fn headings_are_extracted_with_levels() {
    let hs = extract_headings("# T\ntext\n## A b\n#nospace\n### C\r\n");
    assert_eq!(levels(&hs), vec![1, 2, 3]);
    assert_eq!(hs[1].title, "A b");
    assert_eq!(hs[2].title, "C");
}

#[test]
fn single_title_is_dropped_and_others_lifted() {
    let hs = extract_headings("# T\n## a\n## b\n### c\n");
    let n = normalize_headings(hs);
    assert_eq!(levels(&n), vec![1, 1, 2]);
    assert_eq!(n[0].title, "a");
}

#[test]
fn two_top_headings_stay_as_they_are() {
    let hs = extract_headings("## a\n# b\n# c\n## d\n");
    let n = normalize_headings(hs);
    assert_eq!(levels(&n), vec![2, 1, 1, 2]);
}

#[test]
fn slug_replaces_spaces_only() {
    let h = HeadLine { intend: 1, title: "Getting Started!".to_string() };
    assert_eq!(h.to_md(), "- [Getting Started!](#getting-started!)  \n");
    let h = HeadLine { intend: 3, title: "Ünïcode Ä b".to_string() };
    assert_eq!(h.to_md(), "        - [Ünïcode Ä b](#Ünïcode-Ä-b)  \n");
}

#[test]
fn toc_block_has_markers_items_and_stamp() {
    let hs = vec![HeadLine { intend: 1, title: "Setup".to_string() }];
    let b = toc_block(&hs, "01.02.2024 10:30");
    assert_eq!(
        b,
        format!(
            "{}\n- [Setup](#setup)  \n<sup><sup>Last update: 01.02.2024 10:30</sup></sup>\n{}",
            TOC_BEGIN_PREFIX, TOC_END_PREFIX
        )
    );
}

#[test]
fn toc_round_trip_replaces_first_use_marker() {
    let doc = format!("{}\n# Intro\n## Setup\n", TOC_FIRST_PREFIX);
    let (out, changed) = update_toc(&doc, "01.02.2024 10:30");
    assert!(changed);
    assert!(!out.contains(TOC_FIRST_PREFIX));
    let expected = format!(
        "{}\n- [Setup](#setup)  \n<sup><sup>Last update: 01.02.2024 10:30</sup></sup>\n{}\n# Intro\n## Setup\n",
        TOC_BEGIN_PREFIX, TOC_END_PREFIX
    );
    assert_eq!(out, expected);
    let (again, changed_again) = update_toc(&out, "01.02.2024 10:30");
    assert!(!changed_again);
    assert_eq!(again, out);
    let (later, changed_later) = update_toc(&out, "02.02.2024 11:00");
    assert!(changed_later);
    assert!(later.contains("Last update: 02.02.2024 11:00"));
}

#[test]
fn toc_now_writes_a_block() {
    let doc = format!("{}\n## A\n", TOC_FIRST_PREFIX);
    let (out, changed) = update_toc_now(&doc);
    assert!(changed);
    assert!(out.starts_with(TOC_BEGIN_PREFIX));
    assert!(out.contains("- [A](#a)  \n<sup><sup>Last update: "));
}

#[test]
fn rewrite_without_markers_leaves_text() {
    let (out, changed) = rewrite_block("plain", TOC_FIRST_PREFIX, TOC_BEGIN_PREFIX, TOC_END_PREFIX, "X");
    assert_eq!(out, "plain");
    assert!(!changed);
}

#[test]
fn rewrite_replaces_only_first_use_marker_once() {
    let doc = format!("a{}b{}c", GFS_FIRST_PREFIX, GFS_FIRST_PREFIX);
    let (out, changed) = rewrite_block(&doc, GFS_FIRST_PREFIX, GFS_BEGIN_PREFIX, GFS_END_PREFIX, "X");
    assert!(changed);
    assert_eq!(out, format!("aXb{}c", GFS_FIRST_PREFIX));
}

#[test]
fn rewrite_region_is_nearest_end_and_literal() {
    let doc = format!(
        "pre{b}\nold\n{e}mid{b}keep{e}post",
        b = GFS_BEGIN_PREFIX,
        e = GFS_END_PREFIX
    );
    let (out, changed) = rewrite_block(&doc, GFS_FIRST_PREFIX, GFS_BEGIN_PREFIX, GFS_END_PREFIX, "$1 new");
    assert!(changed);
    assert_eq!(out, format!("pre$1 newmid{b}keep{e}post", b = GFS_BEGIN_PREFIX, e = GFS_END_PREFIX));
}

#[test]
fn rewrite_region_needs_an_end() {
    let doc = format!("x{}y", GFS_BEGIN_PREFIX);
    let (out, changed) = rewrite_block(&doc, GFS_FIRST_PREFIX, GFS_BEGIN_PREFIX, GFS_END_PREFIX, "Z");
    assert_eq!(out, doc);
    assert!(!changed);
}

#[test]
fn structure_block_wraps_rendering() {
    assert_eq!(
        structure_block("R"),
        format!("{}\nR\n{}", GFS_BEGIN_PREFIX, GFS_END_PREFIX)
    );
}

#[test]
fn structure_rewrite_is_idempotent() {
    let root = dir(vec![file("README.md", "./README.md"), dir(vec![], "src")], "./");
    let doc = format!("# P\n{}\nend\n", GFS_FIRST_PREFIX);
    let (first, changed1) = update_structure(&doc, &root, false);
    assert!(changed1);
    assert!(!first.contains(GFS_FIRST_PREFIX));
    let (second, changed2) = update_structure(&first, &root, false);
    assert!(!changed2);
    assert_eq!(first, second);
    let (third, changed3) = apply_structure(&second, &root.to_md(false));
    assert!(!changed3);
    assert_eq!(third, second);
}

#[test]
fn structure_targets_use_containing_directory() {
    let sub = dir(vec![file("b.md", "./s/b.md")], "s");
    let root = dir(vec![file("a.md", "./a.md"), file("t.txt", "./t.txt"), sub], "./");
    let jobs = structure_targets(&root, true);
    assert_eq!(jobs.len(), 2);
    assert_eq!(jobs[0].name, "a.md");
    assert_eq!(jobs[0].path, "./a.md");
    assert_eq!(jobs[0].rendering, root.to_md(true));
    assert_eq!(jobs[1].name, "b.md");
    assert_eq!(jobs[1].rendering, "📁s  ");
}

#[test]
fn text_helpers() {
    let s = chars_of("héllo");
    assert_eq!(s, vec!['h', 'é', 'l', 'l', 'o']);
    assert_eq!(string_of(&s), "héllo");
    assert_eq!(find_first(&s, &chars_of("l")), Some(2));
    assert_eq!(find_first(&s, &chars_of("z")), None);
    assert!(contains_chars(&s, &chars_of("llo")));
    assert!(contains_chars(&s, &chars_of("")));
}
