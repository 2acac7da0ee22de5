//! Commits, their titles, and the table of conventional-commit categories.
use vstd::prelude::*;
use crate::text::{
    contains, find_char, first_index_of, occurs_at, occurs_in, same_text, starts_with, trim,
    trim_spec,
};

verus! {

/// One commit of the release range: its id, as text, and its full message.
pub struct Commit {
    pub id: String,
    pub message: String,
}

/// A category key with its descriptions, in commit order.
pub struct Category {
    pub key: String,
    pub items: Vec<String>,
}

/// Categories in the order in which their keys were first seen; each key
/// occurs once.
pub struct CategoryTable {
    pub entries: Vec<Category>,
}

pub open spec fn texts(v: Seq<String>) -> Seq<Seq<char>> {
    v.map_values(|s: String| s@)
}

impl View for Category {
    type V = (Seq<char>, Seq<Seq<char>>);

    open spec fn view(&self) -> (Seq<char>, Seq<Seq<char>>) {
        (self.key@, texts(self.items@))
    }
}

impl View for CategoryTable {
    type V = Seq<(Seq<char>, Seq<Seq<char>>)>;

    open spec fn view(&self) -> Seq<(Seq<char>, Seq<Seq<char>>)> {
        self.entries@.map_values(|c: Category| c@)
    }
}

/// The first line of a message: up to the first line feed, without a
/// carriage return right before that line feed. Without a line feed the
/// whole message is the line.
pub open spec fn title_spec(message: Seq<char>) -> Seq<char> {
    match first_index_of(message, '\n') {
        Some(i) => if i > 0 && message[i - 1] == '\r' {
            message.subrange(0, i - 1)
        } else {
            message.subrange(0, i)
        },
        None => message,
    }
}

/// Titles of the commits, in order.
pub open spec fn titles(commits: Seq<Commit>) -> Seq<Seq<char>> {
    commits.map_values(|c: Commit| title_spec(c.message@))
}

/// A title that counts for the release notes: it does not start with
/// `Release`, and, when a submodule is given, it holds `(submodule)`.
pub open spec fn selected(title: Seq<char>, submodule: Seq<char>) -> bool {
    &&& !occurs_at(title, "Release"@, 0)
    &&& submodule.len() == 0 || occurs_in(title, "("@ + submodule + ")"@)
}

/// Category key of a title with a colon: the text before the first `(` when
/// one comes before the first `:`, otherwise the text before the first `:`.
pub open spec fn category_key(title: Seq<char>) -> Seq<char> {
    let colon = first_index_of(title, ':')->0;
    match first_index_of(title, '(') {
        Some(i) if i < colon => title.subrange(0, i),
        _ => title.subrange(0, colon),
    }
}

/// Description of a title with a colon: the text after the first `:`, trimmed.
pub open spec fn description(title: Seq<char>) -> Seq<char> {
    trim_spec(title.subrange(first_index_of(title, ':')->0 + 1, title.len() as int))
}

/// Position of the entry with key `k`.
pub open spec fn key_index(t: Seq<(Seq<char>, Seq<Seq<char>>)>, k: Seq<char>) -> Option<int>
    decreases t.len(),
{
    if t.len() == 0 {
        None
    } else if t[0].0 == k {
        Some(0)
    } else {
        match key_index(t.drop_first(), k) {
            Some(i) => Some(i + 1),
            None => None,
        }
    }
}

/// The table with `d` appended to the entry of `k`, or with a new entry for `k`.
pub open spec fn table_insert(
    t: Seq<(Seq<char>, Seq<Seq<char>>)>,
    k: Seq<char>,
    d: Seq<char>,
) -> Seq<(Seq<char>, Seq<Seq<char>>)> {
    match key_index(t, k) {
        Some(i) => t.update(i, (k, t[i].1.push(d))),
        None => t.push((k, seq![d])),
    }
}

/// The category table of a sequence of titles.
pub open spec fn table_of(titles: Seq<Seq<char>>, submodule: Seq<char>) -> Seq<
    (Seq<char>, Seq<Seq<char>>),
>
    decreases titles.len(),
{
    if titles.len() == 0 {
        Seq::empty()
    } else {
        let t = table_of(titles.drop_last(), submodule);
        let title = titles.last();
        if selected(title, submodule) && first_index_of(title, ':') is Some {
            table_insert(t, category_key(title), description(title))
        } else {
            t
        }
    }
}

pub proof fn lemma_key_index(t: Seq<(Seq<char>, Seq<Seq<char>>)>, k: Seq<char>)
    ensures
        match key_index(t, k) {
            Some(i) => 0 <= i < t.len() && t[i].0 == k && forall|j: int| 0 <= j < i ==> t[j].0 != k,
            None => forall|j: int| 0 <= j < t.len() ==> t[j].0 != k,
        },
    decreases t.len(),
{
    if t.len() > 0 && t[0].0 != k {
        lemma_key_index(t.drop_first(), k);
        assert forall|j: int| 1 <= j < t.len() implies t[j] == t.drop_first()[j - 1] by {}
    }
}

/// No two entries of the table share a key.
pub open spec fn keys_unique(t: Seq<(Seq<char>, Seq<Seq<char>>)>) -> bool {
    forall|i: int, j: int| 0 <= i < j < t.len() ==> #[trigger] t[i].0 != #[trigger] t[j].0
}

/// Every category table built from titles holds each key once.
pub proof fn lemma_table_keys_unique(titles: Seq<Seq<char>>, submodule: Seq<char>)
    ensures
        keys_unique(table_of(titles, submodule)),
    decreases titles.len(),
{
    if titles.len() > 0 {
        lemma_table_keys_unique(titles.drop_last(), submodule);
        let t = table_of(titles.drop_last(), submodule);
        let title = titles.last();
        if selected(title, submodule) && first_index_of(title, ':') is Some {
            let k = category_key(title);
            lemma_key_index(t, k);
            let r = table_insert(t, k, description(title));
            match key_index(t, k) {
                Some(x) => {
                    assert forall|i: int, j: int| 0 <= i < j < r.len() implies #[trigger] r[i].0
                        != #[trigger] r[j].0 by {
                        assert(r[i].0 == t[i].0);
                        assert(r[j].0 == t[j].0);
                    }
                },
                None => {
                    assert forall|i: int, j: int| 0 <= i < j < r.len() implies #[trigger] r[i].0
                        != #[trigger] r[j].0 by {
                        if j < t.len() {
                            assert(r[i].0 == t[i].0);
                            assert(r[j].0 == t[j].0);
                        } else {
                            assert(r[i].0 == t[i].0);
                        }
                    }
                },
            }
        }
    }
}

/// The commits whose titles do not start with `Release`, in order.
pub open spec fn without_releases(commits: Seq<Commit>) -> Seq<Commit>
    decreases commits.len(),
{
    if commits.len() == 0 {
        commits
    } else {
        let rest = without_releases(commits.drop_last());
        if occurs_at(title_spec(commits.last().message@), "Release"@, 0) {
            rest
        } else {
            rest.push(commits.last())
        }
    }
}

pub proof fn lemma_titles_drop_last(commits: Seq<Commit>)
    requires
        commits.len() > 0,
    ensures
        titles(commits).drop_last() == titles(commits.drop_last()),
        titles(commits).last() == title_spec(commits.last().message@),
{
    assert(titles(commits).drop_last() =~= titles(commits.drop_last()));
}

/// Commits whose titles start with `Release` add no key and no description:
/// the table is the same without them.
pub proof fn lemma_table_ignores_releases(commits: Seq<Commit>, submodule: Seq<char>)
    ensures
        table_of(titles(commits), submodule) == table_of(
            titles(without_releases(commits)),
            submodule,
        ),
    decreases commits.len(),
{
    if commits.len() > 0 {
        let init = commits.drop_last();
        let c = commits.last();
        let rest = without_releases(init);
        lemma_table_ignores_releases(init, submodule);
        lemma_titles_drop_last(commits);
        if !occurs_at(title_spec(c.message@), "Release"@, 0) {
            let w = rest.push(c);
            assert(w.drop_last() =~= rest);
            lemma_titles_drop_last(w);
        }
    }
}

/// First line of a commit message.
pub fn commit_title(message: &str) -> (r: &str)
    ensures
        r@ == title_spec(message@),
{
    proof {
        crate::text::lemma_first_index_of(message@, '\n');
    }
    match find_char(message, '\n') {
        Some(i) => {
            if i > 0 && message.get_char(i - 1) == '\r' {
                message.substring_char(0, i - 1)
            } else {
                message.substring_char(0, i)
            }
        },
        None => {
            proof {
                assert(message@.subrange(0, message@.len() as int) =~= message@);
            }
            message.substring_char(0, message.unicode_len())
        },
    }
}

/// Does the title count for the release notes?
pub fn is_selected(title: &str, submodule: &str) -> (r: bool)
    ensures
        r == selected(title@, submodule@),
{
    proof {
        reveal_strlit("Release");
    }
    if starts_with(title, "Release") {
        return false;
    }
    if submodule.unicode_len() == 0 {
        return true;
    }
    let mut marker = String::from_str("(");
    marker.append(submodule);
    marker.append(")");
    proof {
        reveal_strlit("(");
        reveal_strlit(")");
    }
    assert(marker@ =~= "("@ + submodule@ + ")"@);
    contains(title, marker.as_str())
}

impl CategoryTable {
    pub fn new() -> (r: CategoryTable)
        ensures
            r@ == Seq::<(Seq<char>, Seq<Seq<char>>)>::empty(),
    {
        let r = CategoryTable { entries: Vec::new() };
        assert(r@ =~= Seq::<(Seq<char>, Seq<Seq<char>>)>::empty());
        r
    }

    /// Position of the entry with the given key.
    pub fn find(&self, key: &str) -> (r: Option<usize>)
        ensures
            match r {
                Some(i) => key_index(self@, key@) == Some(i as int),
                None => key_index(self@, key@) is None,
            },
    {
        proof {
            lemma_key_index(self@, key@);
        }
        let mut i: usize = 0;
        while i < self.entries.len()
            invariant
                i <= self@.len(),
                self@.len() == self.entries@.len(),
                forall|j: int| 0 <= j < i ==> self.entries@[j].key@ != key@,
            decreases self.entries@.len() - i,
        {
            if same_text(self.entries[i].key.as_str(), key) {
                proof {
                    lemma_key_index(self@, key@);
                    assert(self@[i as int].0 == key@);
                    assert forall|j: int| 0 <= j < i implies self@[j].0 != key@ by {
                        assert(self@[j] == self.entries@[j]@);
                    }
                    match key_index(self@, key@) {
                        Some(k) => {
                            assert(k >= i);
                            assert(k <= i);
                        },
                        None => {},
                    }
                }
                return Some(i);
            }
            i = i + 1;
        }
        assert forall|j: int| 0 <= j < self@.len() implies self@[j].0 != key@ by {
            assert(self@[j] == self.entries@[j]@);
        }
        None
    }

    /// Appends `text` to the entry of `key`, which is added when missing.
    pub fn insert(&mut self, key: &str, text: &str)
        ensures
            final(self)@ == table_insert(old(self)@, key@, text@),
    {
        match self.find(key) {
            Some(i) => {
                proof {
                    lemma_key_index(old(self)@, key@);
                }
                let mut entry = self.entries.remove(i);
                entry.items.push(String::from_str(text));
                proof {
                    lemma_key_index(old(self)@, key@);
                    assert(entry@ == (key@, old(self)@[i as int].1.push(text@))) by {
                        assert(texts(entry.items@) =~= old(self)@[i as int].1.push(text@));
                    }
                }
                self.entries.insert(i, entry);
                assert(self@ =~= table_insert(old(self)@, key@, text@));
            },
            None => {
                let mut items: Vec<String> = Vec::new();
                items.push(String::from_str(text));
                let entry = Category { key: String::from_str(key), items };
                assert(entry@ == (key@, seq![text@])) by {
                    assert(texts(entry.items@) =~= seq![text@]);
                }
                self.entries.push(entry);
                assert(self@ =~= table_insert(old(self)@, key@, text@));
            },
        }
    }
}

/// Category key and description of a title, when it holds a colon.
pub fn classify_title(title: &str) -> (r: Option<(&str, &str)>)
    ensures
        match r {
            Some((k, d)) => first_index_of(title@, ':') is Some && k@ == category_key(title@)
                && d@ == description(title@),
            None => first_index_of(title@, ':') is None,
        },
{
    let n = title.unicode_len();
    proof {
        crate::text::lemma_first_index_of(title@, ':');
    }
    match find_char(title, ':') {
        Some(colon) => {
            proof {
                crate::text::lemma_first_index_of(title@, ':');
            }
            let end = match find_char(title, '(') {
                Some(i) => if i < colon {
                    i
                } else {
                    colon
                },
                None => colon,
            };
            proof {
                crate::text::lemma_first_index_of(title@, '(');
            }
            let key = title.substring_char(0, end);
            let rest = title.substring_char(colon + 1, n);
            Some((key, trim(rest)))
        },
        None => None,
    }
}

/// Groups the commits' titles by category: the titles that count (see
/// `selected`) and hold a colon, by key, each with its description, in commit
/// order.
pub fn get_category_table(commits: &Vec<Commit>, submodule: &str) -> (r: CategoryTable)
    ensures
        r@ == table_of(titles(commits@), submodule@),
        keys_unique(r@),
{
    proof {
        lemma_table_keys_unique(titles(commits@), submodule@);
    }
    let mut table = CategoryTable::new();
    let mut i: usize = 0;
    while i < commits.len()
        invariant
            i <= commits@.len(),
            table@ == table_of(titles(commits@).subrange(0, i as int), submodule@),
        decreases commits@.len() - i,
    {
        let title = commit_title(commits[i].message.as_str());
        proof {
            let ts = titles(commits@).subrange(0, i + 1);
            assert(ts.drop_last() =~= titles(commits@).subrange(0, i as int));
            assert(ts.last() == title@);
        }
        if is_selected(title, submodule) {
            match classify_title(title) {
                Some((key, text)) => {
                    table.insert(key, text);
                },
                None => {},
            }
        }
        i = i + 1;
    }
    assert(titles(commits@).subrange(0, commits@.len() as int) =~= titles(commits@));
    table
}

} // verus!
