use sql_changes::changeset::{Changeset, Header};
use sql_changes::classify::{classify_str, Event};
use sql_changes::commits::PatchParser;
use sql_changes::diffs::ChangesetParser;
use sql_changes::filter::PathFilter;
use sql_changes::group::group_events;
use sql_changes::opt::Opt;
use sql_changes::pipeline::extract_from_str;
use sql_changes::record::JsonFormatter;
use sql_changes::text::chars_of;

const HASH_A: &str = "7a73e12a137433d030d10dbc05705ab48240e332";
const HASH_B: &str = "a5d58f842b7de075c3dcc73eefe0f1737fcb28ec";
const HASH_C: &str = "0123456789abcdef0123456789ABCDEF01234567";

fn commit_header(hash: &str, author: &str) -> String {
    format!(
        "From {} Mon Sep 17 00:00:00 2001\nFrom: {}\nDate: Tue, 1 Jan 2019 10:00:00 +0000\nSubject: [PATCH] change\n\n",
        hash, author
    )
}

fn addition(ev: &Option<Event>) -> Option<String> {
    match ev {
        Some(Event::Addition(s)) => Some(s.clone()),
        _ => None,
    }
}

fn deletion(ev: &Option<Event>) -> Option<String> {
    match ev {
        Some(Event::Deletion(s)) => Some(s.clone()),
        _ => None,
    }
}

fn blocks(bs: &Vec<Vec<String>>) -> Vec<Vec<&str>> {
    bs.iter().map(|b| b.iter().map(|s| s.as_str()).collect()).collect()
}

fn header() -> Header {
    Header::new(HASH_A.to_string(), "A U Thor".to_string(), "today".to_string())
}

#[test]
fn classifier_and_grouper_keep_order() {
    let lines = ["+foo", "+bar", "-baz"];
    let evs: Vec<Option<Event>> = lines.iter().map(|l| classify_str(l)).collect();
    assert_eq!(addition(&evs[0]).as_deref(), Some("foo"));
    assert_eq!(addition(&evs[1]).as_deref(), Some("bar"));
    assert_eq!(deletion(&evs[2]).as_deref(), Some("baz"));
    let evs: Vec<Event> = evs.into_iter().map(|e| e.unwrap()).collect();
    let g = group_events(&evs);
    assert_eq!(blocks(&g.additions), vec![vec!["foo", "bar"]]);
    assert_eq!(blocks(&g.deletions), vec![vec!["baz"]]);
}

#[test]
fn file_header_lines_are_not_changes() {
    assert!(classify_str("+++ b/x.txt").is_none());
    assert!(classify_str("--- a/x.txt").is_none());
    assert!(classify_str("+++").is_none());
    assert_eq!(addition(&classify_str("++")).as_deref(), Some("+"));
    assert_eq!(deletion(&classify_str("--")).as_deref(), Some("-"));
}

#[test]
fn short_and_plain_lines_give_no_event() {
    assert!(classify_str("").is_none());
    assert!(classify_str("+").is_none());
    assert!(classify_str("-").is_none());
    assert!(classify_str(" context line").is_none());
    assert!(classify_str("@@ -1,3 +1,4 @@").is_none());
    assert!(classify_str("index 83db48f..bf269f4 100644").is_none());
}

#[test]
fn diff_and_commit_lines_are_classified() {
    match classify_str("diff --git a/src/dbo/T.sql b/src/dbo/U.sql ") {
        Some(Event::Diff(d)) => {
            assert_eq!(d.left_path, "src/dbo/T.sql");
            assert_eq!(d.right_path, "src/dbo/U.sql");
        }
        _ => panic!("expected a diff event"),
    }
    match classify_str(&format!("From {} Mon Sep 17 00:00:00 2001", HASH_B)) {
        Some(Event::Commit(h)) => assert_eq!(h, HASH_B),
        _ => panic!("expected a commit event"),
    }
    assert!(classify_str("diff --git x/a y/b").is_none());
    assert!(classify_str("diff --git a/only-left").is_none());
    assert!(classify_str("From zz73e12a137433d030d10dbc05705ab48240e332").is_none());
}

#[test]
fn filtering_twice_keeps_what_once_keeps() {
    let text = format!(
        "{}diff --git a/src/dbo/A.sql b/src/dbo/A.sql\n+a\ndiff --git a/docs/B.md b/docs/B.md\n+b\ndiff --git a/x/dbo/C.sql b/x/dbo/C.sql\n-c\n",
        commit_header(HASH_A, "Ann")
    );
    let all = extract_from_str(&text, "");
    assert_eq!(all.len(), 3);
    let f = PathFilter::new("/dbo/");
    let once = f.apply(all);
    let once_paths: Vec<String> = once.iter().map(|c| c.path().to_string()).collect();
    let twice = f.apply(once);
    let twice_paths: Vec<String> = twice.iter().map(|c| c.path().to_string()).collect();
    assert_eq!(once_paths, vec!["src/dbo/A.sql", "x/dbo/C.sql"]);
    assert_eq!(twice_paths, once_paths);
}

#[test]
fn path_filter_matches_substrings() {
    let f = PathFilter::new("/dbo/");
    assert!(f.matches("src/dbo/Table.sql"));
    assert!(!f.matches("src/dbo"));
    assert!(!f.matches("readme.md"));
    assert!(PathFilter::new("").matches(""));
}

#[test]
fn segmenter_yields_one_region_per_commit() {
    let text = format!(
        "preamble\n{}body one\n{}body two\n{}body three",
        commit_header(HASH_A, "Ann"),
        commit_header(HASH_B, "Bob"),
        commit_header(HASH_C, "Cy")
    );
    let cs = chars_of(&text);
    let parser = PatchParser::new();
    let mut patches = parser.patches(&cs);
    let mut seen = Vec::new();
    while let Some((h, body)) = patches.next() {
        let body: String = body.iter().collect();
        seen.push((h.hash().to_string(), h.author().to_string(), h.date().to_string(), body.clone()));
    }
    assert!(patches.next().is_none());
    assert_eq!(seen.len(), 3);
    assert_eq!(seen[0].0, HASH_A);
    assert_eq!(seen[0].1, "Ann");
    assert_eq!(seen[0].2, "Tue, 1 Jan 2019 10:00:00 +0000");
    assert_eq!(seen[0].3, "\nSubject: [PATCH] change\n\nbody one\n");
    assert_eq!(seen[1].0, HASH_B);
    assert_eq!(seen[2].0, HASH_C);
    assert_eq!(seen[2].3, "\nSubject: [PATCH] change\n\nbody three");
    let start = text.find("From ").unwrap();
    let recovered: String = text[start..].to_string();
    let mut joined = String::new();
    for s in seen.iter() {
        joined.push_str(&format!(
            "From {} Mon Sep 17 00:00:00 2001\nFrom: {}\nDate: {}",
            s.0, s.1, s.2
        ));
        joined.push_str(&s.3);
    }
    assert_eq!(joined, recovered);
}

#[test]
fn segmenter_without_markers_is_empty() {
    let cs = chars_of("no commits here\n+added\n");
    let parser = PatchParser::new();
    let mut patches = parser.patches(&cs);
    assert!(patches.next().is_none());
    let empty = chars_of("");
    let mut patches = parser.patches(&empty);
    assert!(patches.next().is_none());
}

#[test]
fn gap_marker_between_blocks() {
    let c = Changeset::new(
        header(),
        "f".to_string(),
        vec![vec!["a".to_string()], vec!["b".to_string()]],
        vec![],
    );
    assert_eq!(c.gapped_additions(), "a\n ...\nb\n");
    assert_eq!(c.gapped_deletions(), "");
    let c = Changeset::new(
        header(),
        "f".to_string(),
        vec![vec!["a".to_string(), "b".to_string()], vec!["c".to_string()], vec!["d".to_string()]],
        vec![vec!["x".to_string()]],
    );
    assert_eq!(c.gapped_additions(), "a\nb\n ...\nc\n ...\nd\n");
    assert_eq!(c.gapped_deletions(), "x\n");
    assert_eq!(c.additions(), "a\nb\nc\nd");
    assert_eq!(c.deletions(), "x");
}

#[test]
fn byte_order_mark_line_is_dropped() {
    let evs: Vec<Event> = ["+a", "+\u{ef}\u{bb}\u{bf}", "+b", "-\u{ef}\u{bb}\u{bf}", "+c"]
        .iter()
        .map(|l| classify_str(l).unwrap())
        .collect();
    let g = group_events(&evs);
    assert_eq!(blocks(&g.additions), vec![vec!["a", "b", "c"]]);
    assert!(g.deletions.is_empty());
    let only = vec![classify_str("-\u{ef}\u{bb}\u{bf}").unwrap()];
    let g = group_events(&only);
    assert!(g.additions.is_empty());
    assert!(g.deletions.is_empty());
}

#[test]
fn interleaved_changes_form_separate_blocks() {
    let evs: Vec<Event> = ["+a", "-b", "-c", "+d", "+e", "-f"]
        .iter()
        .map(|l| classify_str(l).unwrap())
        .collect();
    let g = group_events(&evs);
    assert_eq!(blocks(&g.additions), vec![vec!["a"], vec!["d", "e"]]);
    assert_eq!(blocks(&g.deletions), vec![vec!["b", "c"], vec!["f"]]);
}

#[test]
fn end_to_end_keeps_only_matching_files() {
    let text = format!(
        "{}diff --git a/src/dbo/Table.sql b/src/dbo/Table.sql\n+ALTER TABLE\ndiff --git a/readme.md b/readme.md\n+hello\n",
        commit_header(HASH_A, "Ann")
    );
    let sets = extract_from_str(&text, "/dbo/");
    assert_eq!(sets.len(), 1);
    assert_eq!(sets[0].path(), "src/dbo/Table.sql");
    assert!(sets[0].additions().contains("ALTER TABLE"));
    assert_eq!(sets[0].additions(), "ALTER TABLE");
    assert_eq!(sets[0].deletions(), "");
    assert_eq!(sets[0].header().hash(), HASH_A);
    assert!(sets.iter().all(|c| c.path() != "readme.md"));
}

#[test]
fn changesets_of_one_commit() {
    let body = "message\ndiff --git a/a.sql b/a.sql\nindex 1..2\n--- a/a.sql\n+++ b/a.sql\n@@ -1 +1 @@\n-old\r\n+new\r\n context\ndiff --git a/b.sql b/b.sql\n+x\n";
    let cs = chars_of(body);
    let h = header();
    let parser = ChangesetParser::new();
    let mut sets = parser.changesets(&h, &cs);
    let first = sets.next().unwrap();
    assert_eq!(first.path(), "a.sql");
    assert_eq!(blocks(first.deletion_blocks()), vec![vec!["old"]]);
    assert_eq!(blocks(first.addition_blocks()), vec![vec!["new"]]);
    let second = sets.next().unwrap();
    assert_eq!(second.path(), "b.sql");
    assert_eq!(second.additions(), "x");
    assert!(sets.next().is_none());
    assert!(sets.next().is_none());
}

#[test]
fn commit_without_diffs_gives_nothing() {
    let text = format!("{}just a message\n", commit_header(HASH_A, "Ann"));
    assert!(extract_from_str(&text, "").is_empty());
    assert!(extract_from_str("", "").is_empty());
    let before_first = "diff --git a/src/dbo/T.sql b/src/dbo/T.sql\n+x\n";
    assert!(extract_from_str(before_first, "").is_empty());
}

#[test]
fn records_across_commits_keep_their_headers() {
    let text = format!(
        "{}diff --git a/src/dbo/A.sql b/src/dbo/A.sql\n+a1\n{}diff --git a/src/dbo/B.sql b/src/dbo/B.sql\n-b1\n",
        commit_header(HASH_A, "Ann"),
        commit_header(HASH_B, "  Bob  ")
    );
    let sets = extract_from_str(&text, "/dbo/");
    assert_eq!(sets.len(), 2);
    assert_eq!(sets[0].header().hash(), HASH_A);
    assert_eq!(sets[0].additions(), "a1");
    assert_eq!(sets[1].header().hash(), HASH_B);
    assert_eq!(sets[1].header().author(), "Bob");
    assert_eq!(sets[1].deletions(), "b1");
}

#[test]
fn flat_record_joins_lines() {
    let c = Changeset::new(
        header(),
        "src/dbo/T.sql".to_string(),
        vec![vec!["a".to_string()], vec!["b".to_string(), "c".to_string()]],
        vec![vec!["d".to_string()]],
    );
    let r = JsonFormatter::new(&c);
    assert_eq!(r.path, "src/dbo/T.sql");
    assert_eq!(r.additions, "a\nb\nc");
    assert_eq!(r.deletions, "d");
}

#[test]
fn options_hand_back_paths() {
    let o = Opt::new(Some("in.patch".to_string()), None);
    assert_eq!(o.path(), Some("in.patch"));
    assert_eq!(o.output(), None);
    let o = Opt::new(None, Some("out.json".to_string()));
    assert_eq!(o.path(), None);
    assert_eq!(o.output(), Some("out.json"));
}

#[test]
fn header_copies_keep_fields() {
    let h = header();
    let d = h.duplicate();
    assert_eq!(d.hash(), HASH_A);
    assert_eq!(d.author(), "A U Thor");
    assert_eq!(d.date(), "today");
}

#[test]
fn carriage_return_kept_without_line_feed() {
    let body = "diff --git a/a.sql b/a.sql\n+one\r\n+two\r";
    let cs = chars_of(body);
    let h = header();
    let parser = ChangesetParser::new();
    let mut sets = parser.changesets(&h, &cs);
    let c = sets.next().unwrap();
    assert_eq!(blocks(c.addition_blocks()), vec![vec!["one", "two\r"]]);
    assert_eq!(c.additions(), "one\ntwo\r");
}

#[test]
fn joins_are_empty_only_without_blocks() {
    let c = Changeset::new(header(), "f".to_string(), vec![], vec![vec!["x".to_string()]]);
    assert_eq!(c.additions(), "");
    assert_eq!(c.gapped_additions(), "");
    assert_eq!(c.deletions(), "x");
    assert_eq!(c.gapped_deletions(), "x\n");
}

#[test]
fn unicode_whitespace_is_trimmed() {
    match classify_str("diff --git a/\u{3000}x\u{a0} b/\u{2003}x\u{a0}\u{85}") {
        Some(Event::Diff(d)) => {
            assert_eq!(d.left_path, "x");
            assert_eq!(d.right_path, "x");
        }
        _ => panic!("expected a diff event"),
    }
    let text = format!(
        "From {} Mon Sep 17 00:00:00 2001\nFrom: A\u{a0}\nDate: \u{2028}today\u{202f}\ndiff --git a/src/dbo/T.sql b/src/dbo/T.sql\u{a0}\n+x\n",
        HASH_A
    );
    let sets = extract_from_str(&text, "/dbo/");
    assert_eq!(sets.len(), 1);
    assert_eq!(sets[0].path(), "src/dbo/T.sql");
    assert_eq!(sets[0].header().author(), "A");
    assert_eq!(sets[0].header().date(), "today");
}
