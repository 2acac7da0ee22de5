use gitrelease::classify::{commit_title, get_category_table, Commit};
use gitrelease::notes::{
    current_header, get_categorized_changes, get_commits, get_compare_changes,
    get_edited_files, get_footer, get_header, header_bump_type, render_categorized_changes,
    tag_version_text,
};
use gitrelease::remote::normalize_remote_url;
use gitrelease::tag::{latest_release_index, tag_pattern, Tag};
use gitrelease::text::trim;

fn commit(id: &str, message: &str) -> Commit {
    Commit { id: id.to_string(), message: message.to_string() }
}

fn sample_commits() -> Vec<Commit> {
    vec![
        commit("a1", "feat(x): add thing"),
        commit("b2", "Release 1.0.0"),
        commit("c3", "fix: correct bug"),
        commit("d4", "chore: tidy"),
    ]
}

fn table_pairs(commits: &Vec<Commit>, submodule: &str) -> Vec<(String, Vec<String>)> {
    get_category_table(commits, submodule)
        .entries
        .iter()
        .map(|c| (c.key.clone(), c.items.clone()))
        .collect()
}

fn tag(name: &str, time: i64, oid: &str) -> Tag {
    Tag { name: name.to_string(), time, oid: oid.to_string() }
}

#[test]
fn category_table_of_sample_commits() {
    let pairs = table_pairs(&sample_commits(), "");
    assert_eq!(
        pairs,
        vec![
            ("feat".to_string(), vec!["add thing".to_string()]),
            ("fix".to_string(), vec!["correct bug".to_string()]),
            ("chore".to_string(), vec!["tidy".to_string()]),
        ]
    );
    assert!(pairs.iter().all(|(k, items)| !k.contains("Release")
        && items.iter().all(|i| !i.contains("1.0.0"))));
}

#[test]
fn category_table_groups_in_commit_order() {
    let commits = vec![
        commit("1", "fix: one"),
        commit("2", "no colon here"),
        commit("3", "fix(core):   two  \n\nbody: ignored"),
        commit("4", "docs: readme"),
        commit("5", "odd: text (with paren)"),
    ];
    assert_eq!(
        table_pairs(&commits, ""),
        vec![
            ("fix".to_string(), vec!["one".to_string(), "two".to_string()]),
            ("docs".to_string(), vec!["readme".to_string()]),
            ("odd".to_string(), vec!["text (with paren)".to_string()]),
        ]
    );
}

#[test]
fn category_table_with_submodule_filter() {
    let commits = vec![
        commit("1", "feat(core): in core"),
        commit("2", "feat(ui): in ui"),
        commit("3", "Release (core) 2.0.0"),
    ];
    assert_eq!(
        table_pairs(&commits, "core"),
        vec![("feat".to_string(), vec!["in core".to_string()])]
    );
}

#[test]
fn categorized_changes_of_sample_commits() {
    let text = get_categorized_changes(&sample_commits(), "");
    assert_eq!(text, "#### Features\n\n* add thing\n\n#### Bug Fixes\n\n* correct bug\n\n---\n");
    assert!(text.contains("Features"));
    assert!(text.contains("Bug Fixes"));
    assert!(!text.contains("tidy"));
    assert!(!text.contains("Chores"));
}

#[test]
fn categorized_changes_names_each_shown_category() {
    let commits = vec![
        commit("1", "perf: faster"),
        commit("2", "docs: guide"),
        commit("3", "style: spaces"),
        commit("4", "refactor: moved"),
        commit("5", "test: more"),
    ];
    let table = get_category_table(&commits, "");
    assert_eq!(
        render_categorized_changes(&table),
        "#### Performance Improvements\n\n* faster\n\n#### Documentation\n\n* guide\n\n---\n"
    );
    assert_eq!(get_categorized_changes(&Vec::new(), ""), "---\n");
}

#[test]
fn commit_list_links_each_counted_commit() {
    let text = get_commits(&sample_commits(), "", "https://github.com/o/r");
    assert_eq!(
        text,
        "### Commits since last release:\n\n\
         * [feat(x): add thing](https://github.com/o/r/commit/a1)\n\
         * [fix: correct bug](https://github.com/o/r/commit/c3)\n\
         * [chore: tidy](https://github.com/o/r/commit/d4)\n\n\n"
    );
    let only_x = get_commits(&sample_commits(), "x", "u");
    assert_eq!(only_x, "### Commits since last release:\n\n* [feat(x): add thing](u/commit/a1)\n\n\n");
}

#[test]
fn commit_list_keeps_titles_without_colon() {
    let commits = vec![commit("9", "plain title\r\nmore")];
    assert_eq!(
        get_commits(&commits, "", "u"),
        "### Commits since last release:\n\n* [plain title](u/commit/9)\n\n\n"
    );
}

#[test]
fn commit_title_is_first_line() {
    assert_eq!(commit_title("one\ntwo"), "one");
    assert_eq!(commit_title("one\r\ntwo"), "one");
    assert_eq!(commit_title("single"), "single");
    assert_eq!(commit_title("\nsecond"), "");
    assert_eq!(commit_title(""), "");
    assert_eq!(commit_title("bare\r"), "bare\r");
    assert_eq!(commit_title("a\rb\r\nc"), "a\rb");
}

#[test]
fn trim_removes_unicode_whitespace() {
    assert_eq!(trim(" \t a b \n"), "a b");
    assert_eq!(trim("\u{3000}x\u{a0}"), "x");
    assert_eq!(trim("   "), "");
}

#[test]
fn header_bump_type_follows_features() {
    let with_feat = get_category_table(&vec![commit("1", "fix: a"), commit("2", "feat: b")], "");
    assert_eq!(header_bump_type(&with_feat), "minor");
    let only_fix = get_category_table(&vec![commit("1", "fix: a")], "");
    assert_eq!(header_bump_type(&only_fix), "patch");
}

#[test]
fn header_with_features_bumps_minor() {
    let header = get_header(&sample_commits(), &tag("v1.2.3", 0, "x"), "", "2024-05-06");
    assert_eq!(
        header.unwrap(),
        ":robot: I have created a release \\*beep\\* \\*boop\\*\n---\n### 1.3.0 / 2024-05-06\n\n"
    );
}

#[test]
fn header_without_features_bumps_patch() {
    let commits = vec![commit("1", "fix: a")];
    let header = get_header(&commits, &tag("pkg/v0.9.9", 0, "x"), "", "D");
    assert_eq!(
        header.unwrap(),
        ":robot: I have created a release \\*beep\\* \\*boop\\*\n---\n### 0.9.10 / D\n\n"
    );
    let folder = get_header(&commits, &tag("pkg/2.0.0-SNAPSHOT", 0, "x"), "", "D");
    assert!(folder.unwrap().contains("### 2.0.1 / D"));
}

#[test]
fn header_of_tag_without_version_is_none() {
    assert!(get_header(&sample_commits(), &tag("vnext", 0, "x"), "", "D").is_none());
    assert!(get_header(&sample_commits(), &tag("v", 0, "x"), "", "D").is_none());
    let max_patch = tag("v1.0.18446744073709551615", 0, "x");
    assert!(get_header(&vec![commit("1", "fix: a")], &max_patch, "", "D").is_none());
}

#[test]
fn current_header_is_dated() {
    let header = current_header(&sample_commits(), &tag("v1.2.3", 0, "x"), "").unwrap();
    assert!(header.contains("### 1.3.0 / "));
    let date = header.trim_end().rsplit(" / ").next().unwrap();
    let chars: Vec<char> = date.chars().collect();
    let n = chars.len();
    assert!(n >= 10);
    assert_eq!((chars[n - 6], chars[n - 3]), ('-', '-'));
    assert!([n - 5, n - 4, n - 2, n - 1].iter().all(|&i| chars[i].is_ascii_digit()));
    assert!(current_header(&sample_commits(), &tag("x", 0, "y"), "").is_none());
}

#[test]
fn tag_version_text_strips_folder_and_v() {
    assert_eq!(tag_version_text("v1.2.3"), "1.2.3");
    assert_eq!(tag_version_text("a/b/v4.5.6"), "4.5.6");
    assert_eq!(tag_version_text("a/7.8.9"), "7.8.9");
    assert_eq!(tag_version_text("a/"), "");
}

#[test]
fn edited_files_filtered_by_folder() {
    let paths = vec!["src/a.rs".to_string(), "docs/b.md".to_string(), "src2/c".to_string()];
    assert_eq!(
        get_edited_files(&paths, "src"),
        "### Files edited since last release:\n\n<pre><code>src/a.rs\n</code></pre>\n"
    );
    assert_eq!(
        get_edited_files(&paths, ""),
        "### Files edited since last release:\n\n<pre><code>src/a.rs\ndocs/b.md\nsrc2/c\n</code></pre>\n"
    );
}

#[test]
fn compare_link_and_footer() {
    assert_eq!(
        get_compare_changes("https://h/o/r", "abc123"),
        "[Compare Changes](https://h/o/r/compare/abc123...HEAD)"
    );
    assert_eq!(
        get_footer(),
        "\n\n\nThis PR was generated with [GitRelease](https://github.com/hengfengli/gitrelease).\n"
    );
}

#[test]
fn remote_url_normalization() {
    assert_eq!(
        normalize_remote_url("git@github.com:owner/repo.git").unwrap(),
        "https://github.com/owner/repo"
    );
    assert_eq!(
        normalize_remote_url("https://github.com/owner/repo.git").unwrap(),
        "https://github.com/owner/repo.git"
    );
    assert_eq!(normalize_remote_url("git@h:a/b-c_d.git").unwrap(), "https://h/a/b-c_d");
    assert_eq!(normalize_remote_url("git@hôst:o/r.git").unwrap(), "https://hôst/o/r");
    assert_eq!(
        normalize_remote_url("git@gitlab.example.com:group/sub/repo.git").unwrap(),
        "https://gitlab.example.com/group/sub/repo"
    );
    assert!(normalize_remote_url("git@h st:o/r.git").is_none());
    for bad in ["ssh://git@github.com/o/r.git", "git@github.com:o/r", "git@github.com:o/r.x.git",
                "git@github.com", "http://github.com/o/r"] {
        assert!(normalize_remote_url(bad).is_none(), "{}", bad);
    }
}

#[test]
fn tag_pattern_by_folder() {
    assert_eq!(tag_pattern(""), "v*");
    assert_eq!(tag_pattern("pkg/sub"), "pkg/sub/*");
}

#[test]
fn latest_release_prefers_later_time_then_first_seen() {
    assert_eq!(latest_release_index(&Vec::new()), None);
    let tags = vec![tag("v1.0.0", 10, "a"), tag("v1.1.0", 30, "b"), tag("v1.2.0", 30, "c"),
                    tag("v0.9.0", 5, "d")];
    assert_eq!(latest_release_index(&tags), Some(1));
    assert_eq!(latest_release_index(&vec![tag("v0.1.0", -3, "a")]), Some(0));
}

#[test]
fn commit_list_skips_release_and_keeps_colonless() {
    let commits = vec![
        commit("i0", "fix: a"),
        commit("i1", "Release 1.0.0"),
        commit("i2", "Merge branch dev"),
    ];
    assert_eq!(
        get_commits(&commits, "", "https://github.com/o/r"),
        "### Commits since last release:\n\n* [fix: a](https://github.com/o/r/commit/i0)\n* [Merge branch dev](https://github.com/o/r/commit/i2)\n\n\n"
    );
}

#[test]
fn category_table_same_without_release_commits() {
    let with_release = sample_commits();
    let without: Vec<Commit> = vec![
        commit("a1", "feat(x): add thing"),
        commit("c3", "fix: correct bug"),
        commit("d4", "chore: tidy"),
    ];
    assert_eq!(table_pairs(&with_release, ""), table_pairs(&without, ""));
}
