//! The web address of a repository from its `origin` remote URL.
use vstd::prelude::*;
use crate::text::{find_char, first_index_of, is_word_char, occurs_at, regex_word, starts_with};

verus! {

pub open spec fn is_host_char(c: char) -> bool {
    regex_word(c) || c == '.'
}

pub open spec fn is_path_char(c: char) -> bool {
    regex_word(c) || c == '/' || c == '-'
}

/// Host and path of an SSH remote `git@host:path.git`, where the host holds
/// word characters (see `regex_word`) and dots and the path word characters,
/// `/` and `-`.
pub open spec fn ssh_parts(url: Seq<char>) -> Option<(Seq<char>, Seq<char>)> {
    if url.len() >= 8 && url.subrange(0, 4) == "git@"@ && url.subrange(url.len() - 4, url.len() as int)
        == ".git"@ {
        let middle = url.subrange(4, url.len() - 4);
        match first_index_of(middle, ':') {
            Some(i) => {
                let host = middle.subrange(0, i);
                let path = middle.subrange(i + 1, middle.len() as int);
                if (forall|k: int| 0 <= k < host.len() ==> is_host_char(#[trigger] host[k])) && (
                forall|k: int| 0 <= k < path.len() ==> is_path_char(#[trigger] path[k])) {
                    Some((host, path))
                } else {
                    None
                }
            },
            None => None,
        }
    } else {
        None
    }
}

/// An `https://` URL as it is; an SSH remote `git@host:path.git` as
/// `https://host/path`; nothing for any other form.
pub open spec fn web_url(url: Seq<char>) -> Option<Seq<char>> {
    if occurs_at(url, "https://"@, 0) {
        Some(url)
    } else {
        match ssh_parts(url) {
            Some((host, path)) => Some("https://"@ + host + "/"@ + path),
            None => None,
        }
    }
}

fn all_chars(s: &str, path: bool) -> (r: bool)
    ensures
        r == if path {
            forall|k: int| 0 <= k < s@.len() ==> is_path_char(#[trigger] s@[k])
        } else {
            forall|k: int| 0 <= k < s@.len() ==> is_host_char(#[trigger] s@[k])
        },
{
    let n = s.unicode_len();
    let mut i: usize = 0;
    while i < n
        invariant
            n == s@.len(),
            i <= n,
            path ==> forall|k: int| 0 <= k < i ==> is_path_char(#[trigger] s@[k]),
            !path ==> forall|k: int| 0 <= k < i ==> is_host_char(#[trigger] s@[k]),
        decreases n - i,
    {
        let c = s.get_char(i);
        let word = is_word_char(c);
        let ok = if path {
            word || c == '/' || c == '-'
        } else {
            word || c == '.'
        };
        if !ok {
            return false;
        }
        i = i + 1;
    }
    true
}

/// Web address of the repository from its `origin` URL, or `None` when the
/// URL has neither accepted form.
pub fn normalize_remote_url(url: &str) -> (r: Option<String>)
    ensures
        match r {
            Some(s) => web_url(url@) == Some(s@),
            None => web_url(url@) is None,
        },
{
    proof {
        reveal_strlit("https://");
        reveal_strlit("git@");
        reveal_strlit(".git");
        reveal_strlit("/");
    }
    if starts_with(url, "https://") {
        return Some(String::from_str(url));
    }
    let n = url.unicode_len();
    if n < 8 || !starts_with(url, "git@") || !crate::text::same_text(
        url.substring_char(n - 4, n),
        ".git",
    ) {
        return None;
    }
    let middle = url.substring_char(4, n - 4);
    proof {
        crate::text::lemma_first_index_of(middle@, ':');
    }
    match find_char(middle, ':') {
        Some(i) => {
            let host = middle.substring_char(0, i);
            let path = middle.substring_char(i + 1, middle.unicode_len());
            if all_chars(host, false) && all_chars(path, true) {
                let mut r = String::from_str("https://");
                r.append(host);
                r.append("/");
                r.append(path);
                Some(r)
            } else {
                None
            }
        },
        None => None,
    }
}

} // verus!
