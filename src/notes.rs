//! The sections of a release-notes document.
use vstd::prelude::*;
use crate::classify::{
    commit_title, get_category_table, is_selected, key_index, selected, texts, title_spec,
    titles, table_of, without_releases, Commit, CategoryTable,
};
use crate::tag::Tag;
use crate::text::{occurs_at, same_text, starts_with};
use crate::version::{is_digit, bump_fits, bump_spec, fits_u64, format_spec, parse_spec, SemVer, Version};

verus! {

/// Display name of a category that the notes show; the others are left out.
pub open spec fn display_name(key: Seq<char>) -> Option<Seq<char>> {
    if key == "feat"@ {
        Some("Features"@)
    } else if key == "fix"@ {
        Some("Bug Fixes"@)
    } else if key == "docs"@ {
        Some("Documentation"@)
    } else if key == "perf"@ {
        Some("Performance Improvements"@)
    } else {
        None
    }
}

/// One `* item` line per item.
pub open spec fn bullets(items: Seq<Seq<char>>) -> Seq<char>
    decreases items.len(),
{
    if items.len() == 0 {
        Seq::empty()
    } else {
        bullets(items.drop_last()) + "* "@ + items.last() + "\n"@
    }
}

/// The section of one category: a subheading and its bullets, or nothing for
/// a category that is not shown.
pub open spec fn section(entry: (Seq<char>, Seq<Seq<char>>)) -> Seq<char> {
    match display_name(entry.0) {
        Some(name) => "#### "@ + name + "\n\n"@ + bullets(entry.1) + "\n"@,
        None => Seq::empty(),
    }
}

pub open spec fn sections(t: Seq<(Seq<char>, Seq<Seq<char>>)>) -> Seq<char>
    decreases t.len(),
{
    if t.len() == 0 {
        Seq::empty()
    } else {
        sections(t.drop_last()) + section(t.last())
    }
}

/// The categorized-changes section of a table, in table order.
pub open spec fn categorized_changes_text(t: Seq<(Seq<char>, Seq<Seq<char>>)>) -> Seq<char> {
    sections(t) + "---\n"@
}

/// One linked line per commit whose title counts.
pub open spec fn commit_lines(commits: Seq<Commit>, submodule: Seq<char>, url: Seq<char>) -> Seq<
    char,
>
    decreases commits.len(),
{
    if commits.len() == 0 {
        Seq::empty()
    } else {
        let prev = commit_lines(commits.drop_last(), submodule, url);
        let c = commits.last();
        let title = title_spec(c.message@);
        if selected(title, submodule) {
            prev + "* ["@ + title + "]("@ + url + "/commit/"@ + c.id@ + ")\n"@
        } else {
            prev
        }
    }
}

pub open spec fn commits_text(commits: Seq<Commit>, submodule: Seq<char>, url: Seq<char>) -> Seq<
    char,
> {
    "### Commits since last release:\n\n"@ + commit_lines(commits, submodule, url) + "\n\n"@
}

/// Is a changed path listed for the folder (every path for no folder)?
pub open spec fn path_shown(path: Seq<char>, folder: Seq<char>) -> bool {
    folder.len() == 0 || occurs_at(path, folder + "/"@, 0)
}

pub open spec fn file_lines(paths: Seq<Seq<char>>, folder: Seq<char>) -> Seq<char>
    decreases paths.len(),
{
    if paths.len() == 0 {
        Seq::empty()
    } else {
        let prev = file_lines(paths.drop_last(), folder);
        if path_shown(paths.last(), folder) {
            prev + paths.last() + "\n"@
        } else {
            prev
        }
    }
}

pub open spec fn edited_files_text(paths: Seq<Seq<char>>, folder: Seq<char>) -> Seq<char> {
    "### Files edited since last release:\n\n<pre><code>"@ + file_lines(paths, folder)
        + "</code></pre>\n"@
}

pub open spec fn compare_text(url: Seq<char>, oid: Seq<char>) -> Seq<char> {
    "[Compare Changes]("@ + url + "/compare/"@ + oid + "...HEAD)"@
}

pub open spec fn footer_text() -> Seq<char> {
    "\n\n\nThis PR was generated with [GitRelease](https://github.com/hengfengli/gitrelease).\n"@
}

/// The text after the last `/`, or all of it.
pub open spec fn after_last_slash(s: Seq<char>) -> Seq<char>
    decreases s.len(),
{
    if s.len() == 0 {
        s
    } else if s.last() == '/' {
        Seq::empty()
    } else {
        after_last_slash(s.drop_last()).push(s.last())
    }
}

/// The version text of a tag name: its last `/` segment, without a leading `v`.
pub open spec fn version_text(name: Seq<char>) -> Seq<char> {
    let seg = after_last_slash(name);
    if seg.len() > 0 && seg[0] == 'v' {
        seg.drop_first()
    } else {
        seg
    }
}

/// `minor` when the table has features, `patch` otherwise.
pub open spec fn bump_type_spec(t: Seq<(Seq<char>, Seq<Seq<char>>)>) -> Seq<char> {
    if key_index(t, "feat"@) is Some {
        "minor"@
    } else {
        "patch"@
    }
}

/// The version of the next release: the tag's version bumped by the table's
/// bump type; nothing when the tag holds no version or a number would not fit.
pub open spec fn next_version(name: Seq<char>, t: Seq<(Seq<char>, Seq<Seq<char>>)>) -> Option<
    SemVer,
> {
    match parse_spec(version_text(name)) {
        Some(v) => if fits_u64(v) && bump_fits(v, bump_type_spec(t)) {
            Some(bump_spec(v, bump_type_spec(t)))
        } else {
            None
        },
        None => None,
    }
}

pub open spec fn header_text(version: Seq<char>, date: Seq<char>) -> Seq<char> {
    ":robot: I have created a release \\*beep\\* \\*boop\\*\n---\n### "@ + version + " / "@ + date
        + "\n\n"@
}

/// The next release is a minor one when the table has a `feat` entry, and a
/// patch release when it has none.
pub proof fn lemma_bump_type_by_features(t: Seq<(Seq<char>, Seq<Seq<char>>)>)
    ensures
        (exists|i: int| 0 <= i < t.len() && #[trigger] t[i].0 == "feat"@) ==> bump_type_spec(t)
            == "minor"@,
        (forall|i: int| 0 <= i < t.len() ==> #[trigger] t[i].0 != "feat"@) ==> bump_type_spec(t)
            == "patch"@,
{
    crate::classify::lemma_key_index(t, "feat"@);
}

/// Commits whose titles start with `Release` add no line to the commit list:
/// the list is the same without them.
pub proof fn lemma_commit_lines_ignore_releases(
    commits: Seq<Commit>,
    submodule: Seq<char>,
    url: Seq<char>,
)
    ensures
        commit_lines(commits, submodule, url) == commit_lines(
            without_releases(commits),
            submodule,
            url,
        ),
    decreases commits.len(),
{
    if commits.len() > 0 {
        let init = commits.drop_last();
        let c = commits.last();
        let rest = without_releases(init);
        lemma_commit_lines_ignore_releases(init, submodule, url);
        if !occurs_at(title_spec(c.message@), "Release"@, 0) {
            let w = rest.push(c);
            assert(w.drop_last() =~= rest);
        }
    }
}

fn display_name_exec(key: &str) -> (r: Option<&'static str>)
    ensures
        match r {
            Some(n) => display_name(key@) == Some(n@),
            None => display_name(key@) is None,
        },
{
    proof {
        reveal_strlit("feat");
        reveal_strlit("fix");
        reveal_strlit("docs");
        reveal_strlit("perf");
    }
    if same_text(key, "feat") {
        Some("Features")
    } else if same_text(key, "fix") {
        Some("Bug Fixes")
    } else if same_text(key, "docs") {
        Some("Documentation")
    } else if same_text(key, "perf") {
        Some("Performance Improvements")
    } else {
        None
    }
}

/// Renders the categorized changes of a table: for each shown category, in
/// table order, a subheading and one bullet per description; then a rule.
pub fn render_categorized_changes(table: &CategoryTable) -> (r: String)
    ensures
        r@ == categorized_changes_text(table@),
{
    let mut r = String::new();
    let mut i: usize = 0;
    while i < table.entries.len()
        invariant
            i <= table.entries@.len(),
            table@.len() == table.entries@.len(),
            r@ == sections(table@.subrange(0, i as int)),
        decreases table.entries@.len() - i,
    {
        let entry = &table.entries[i];
        let ghost before = r@;
        proof {
            let t = table@.subrange(0, i + 1);
            assert(t.drop_last() =~= table@.subrange(0, i as int));
            assert(t.last() == entry@);
        }
        match display_name_exec(entry.key.as_str()) {
            Some(name) => {
                r.append("#### ");
                r.append(name);
                r.append("\n\n");
                let ghost head = r@;
                let items = &entry.items;
                let mut j: usize = 0;
                assert(texts(items@).subrange(0, 0) =~= Seq::<Seq<char>>::empty());
                while j < items.len()
                    invariant
                        j <= items@.len(),
                        r@ == head + bullets(texts(items@).subrange(0, j as int)),
                    decreases items@.len() - j,
                {
                    proof {
                        let s = texts(items@).subrange(0, j + 1);
                        assert(s.drop_last() =~= texts(items@).subrange(0, j as int));
                    }
                    r.append("* ");
                    r.append(items[j].as_str());
                    r.append("\n");
                    j = j + 1;
                    proof {
                        reveal_strlit("* ");
                        reveal_strlit("\n");
                    }
                    assert(r@ =~= head + bullets(texts(items@).subrange(0, j as int)));
                }
                assert(texts(items@).subrange(0, items@.len() as int) =~= texts(items@));
                r.append("\n");
                assert(r@ =~= before + section(entry@));
            },
            None => {
                assert(r@ =~= before + section(entry@));
            },
        }
        i = i + 1;
    }
    assert(table@.subrange(0, table@.len() as int) =~= table@);
    r.append("---\n");
    r
}

/// Categorized changes of the commits: their category table, rendered.
pub fn get_categorized_changes(commits: &Vec<Commit>, submodule: &str) -> (r: String)
    ensures
        r@ == categorized_changes_text(table_of(titles(commits@), submodule@)),
{
    let table = get_category_table(commits, submodule);
    render_categorized_changes(&table)
}

/// The list of commits since the last release: each commit whose title counts,
/// as a link to `{repo_url}/commit/{id}`.
pub fn get_commits(commits: &Vec<Commit>, submodule: &str, repo_url: &str) -> (r: String)
    ensures
        r@ == commits_text(commits@, submodule@, repo_url@),
{
    let mut r = String::from_str("### Commits since last release:\n\n");
    let ghost head = r@;
    let mut i: usize = 0;
    assert(commits@.subrange(0, 0) =~= Seq::<Commit>::empty());
    while i < commits.len()
        invariant
            i <= commits@.len(),
            r@ == head + commit_lines(commits@.subrange(0, i as int), submodule@, repo_url@),
        decreases commits@.len() - i,
    {
        let commit = &commits[i];
        let title = commit_title(commit.message.as_str());
        proof {
            let s = commits@.subrange(0, i + 1);
            assert(s.drop_last() =~= commits@.subrange(0, i as int));
        }
        if is_selected(title, submodule) {
            r.append("* [");
            r.append(title);
            r.append("](");
            r.append(repo_url);
            r.append("/commit/");
            r.append(commit.id.as_str());
            r.append(")\n");
        }
        i = i + 1;
        assert(r@ =~= head + commit_lines(commits@.subrange(0, i as int), submodule@, repo_url@));
    }
    assert(commits@.subrange(0, commits@.len() as int) =~= commits@);
    r.append("\n\n");
    r
}

/// The list of changed paths, those under `folder/` only when a folder is
/// given, in a preformatted block.
pub fn get_edited_files(paths: &Vec<String>, folder: &str) -> (r: String)
    ensures
        r@ == edited_files_text(texts(paths@), folder@),
{
    let mut prefix = String::from_str(folder);
    prefix.append("/");
    let all = folder.unicode_len() == 0;
    let mut r = String::from_str("### Files edited since last release:\n\n<pre><code>");
    let ghost head = r@;
    let mut i: usize = 0;
    assert(texts(paths@).subrange(0, 0) =~= Seq::<Seq<char>>::empty());
    while i < paths.len()
        invariant
            i <= paths@.len(),
            prefix@ == folder@ + "/"@,
            all == (folder@.len() == 0),
            r@ == head + file_lines(texts(paths@).subrange(0, i as int), folder@),
        decreases paths@.len() - i,
    {
        proof {
            let s = texts(paths@).subrange(0, i + 1);
            assert(s.drop_last() =~= texts(paths@).subrange(0, i as int));
        }
        let path = paths[i].as_str();
        if all || starts_with(path, prefix.as_str()) {
            r.append(path);
            r.append("\n");
        }
        i = i + 1;
        assert(r@ =~= head + file_lines(texts(paths@).subrange(0, i as int), folder@));
    }
    assert(texts(paths@).subrange(0, paths@.len() as int) =~= texts(paths@));
    r.append("</code></pre>\n");
    r
}

/// The link that compares the release commit with the head.
pub fn get_compare_changes(repo_url: &str, oid: &str) -> (r: String)
    ensures
        r@ == compare_text(repo_url@, oid@),
{
    let mut r = String::from_str("[Compare Changes](");
    r.append(repo_url);
    r.append("/compare/");
    r.append(oid);
    r.append("...HEAD)");
    r
}

/// The fixed closing text of the notes.
pub fn get_footer() -> (r: String)
    ensures
        r@ == footer_text(),
{
    String::from_str(
        "\n\n\nThis PR was generated with [GitRelease](https://github.com/hengfengli/gitrelease).\n",
    )
}

/// The version text of a tag name: its last `/` segment, without a leading `v`.
pub fn tag_version_text(name: &str) -> (r: &str)
    ensures
        r@ == version_text(name@),
{
    let n = name.unicode_len();
    let mut k: usize = n;
    assert(name@.subrange(n as int, n as int) =~= Seq::<char>::empty());
    assert(name@.subrange(0, n as int) =~= name@);
    while k > 0 && name.get_char(k - 1) != '/'
        invariant
            n == name@.len(),
            k <= n,
            after_last_slash(name@) == after_last_slash(name@.subrange(0, k as int))
                + name@.subrange(k as int, n as int),
        decreases k,
    {
        let ghost s = name@.subrange(0, k as int);
        assert(s.drop_last() =~= name@.subrange(0, k - 1));
        assert(after_last_slash(s) == after_last_slash(s.drop_last()).push(s.last()));
        assert(after_last_slash(s) + name@.subrange(k as int, n as int) =~= after_last_slash(
            name@.subrange(0, k - 1),
        ) + name@.subrange(k - 1, n as int));
        k = k - 1;
    }
    assert(after_last_slash(name@.subrange(0, k as int)) =~= Seq::<char>::empty());
    let seg = name.substring_char(k, n);
    assert(seg@ =~= after_last_slash(name@));
    let m = seg.unicode_len();
    if m > 0 && seg.get_char(0) == 'v' {
        assert(seg@.subrange(1, m as int) =~= seg@.drop_first());
        seg.substring_char(1, m)
    } else {
        seg
    }
}

/// The bump type of the next release: `minor` when the table has features,
/// `patch` otherwise.
pub fn header_bump_type(table: &CategoryTable) -> (r: &'static str)
    ensures
        r@ == bump_type_spec(table@),
{
    proof {
        reveal_strlit("feat");
    }
    if table.find("feat").is_some() {
        "minor"
    } else {
        "patch"
    }
}

/// The header of the notes for the release after `last_tag`, dated `date`.
/// `None` when the tag's name holds no version, or when the bumped number
/// would not fit in a `u64`.
pub fn get_header(commits: &Vec<Commit>, last_tag: &Tag, submodule: &str, date: &str) -> (r:
    Option<String>)
    ensures
        match next_version(last_tag.name@, table_of(titles(commits@), submodule@)) {
            Some(v) => r matches Some(h) && h@ == header_text(format_spec(v), date@),
            None => r is None,
        },
{
    let table = get_category_table(commits, submodule);
    let bump_type = header_bump_type(&table);
    let text = tag_version_text(last_tag.name.as_str());
    proof {
        reveal_strlit("minor");
        reveal_strlit("patch");
        reveal_strlit("major");
        reveal_strlit("snapshot");
        assert("minor"@[1] != "major"@[1]);
        assert("patch"@[0] != "major"@[0]);
        assert("patch"@[0] != "minor"@[0]);
        assert("minor"@ != "major"@);
        assert("patch"@ != "major"@);
        assert("patch"@ != "minor"@);
        assert("patch"@.len() != "snapshot"@.len());
        assert("minor"@.len() != "snapshot"@.len());
    }
    match Version::parse(text) {
        Some(mut version) => {
            let feat = same_text(bump_type, "minor");
            if (feat && version.minor == u64::MAX) || (!feat && version.patch == u64::MAX) {
                return None;
            }
            version.bump(bump_type);
            let mut r = String::from_str(
                ":robot: I have created a release \\*beep\\* \\*boop\\*\n---\n### ",
            );
            let shown = version.to_string();
            r.append(shown.as_str());
            r.append(" / ");
            r.append(date);
            r.append("\n\n");
            Some(r)
        },
        None => None,
    }
}

/// Text of the shape `YYYY-MM-DD`: a year of at least four characters (a sign
/// comes first outside years 0 to 9999), then two-digit month and day.
pub open spec fn date_shape(s: Seq<char>) -> bool {
    &&& s.len() >= 10
    &&& s[s.len() - 6] == '-'
    &&& is_digit(s[s.len() - 5])
    &&& is_digit(s[s.len() - 4])
    &&& s[s.len() - 3] == '-'
    &&& is_digit(s[s.len() - 2])
    &&& is_digit(s[s.len() - 1])
}

/// Relies on chrono's `Local::now` and its `%Y-%m-%d` formatting: the local
/// calendar date of the moment of the call, with the year written in at least
/// four characters and the month and day zero-padded to two digits.
#[verifier::external_body]
fn local_date() -> (r: String)
    ensures
        date_shape(r@),
{
    chrono::Local::now().format("%Y-%m-%d").to_string()
}

/// The header of the notes for the release after `last_tag`, dated today.
/// `None` exactly where `get_header` gives `None`.
pub fn current_header(commits: &Vec<Commit>, last_tag: &Tag, submodule: &str) -> (r: Option<
    String,
>)
    ensures
        r is Some <==> next_version(last_tag.name@, table_of(titles(commits@), submodule@)) is Some,
        r matches Some(h) ==> exists|date: Seq<char>|
            date_shape(date) && h@ == header_text(
                format_spec(
                    next_version(last_tag.name@, table_of(titles(commits@), submodule@))->0,
                ),
                date,
            ),
{
    let date = local_date();
    let r = get_header(commits, last_tag, submodule, date.as_str());
    proof {
        if r is Some {
            assert(r->0@ == header_text(
                format_spec(
                    next_version(last_tag.name@, table_of(titles(commits@), submodule@))->0,
                ),
                date@,
            ));
        }
    }
    r
}

} // verus!
