//! Release tags: the naming pattern and the choice of the latest one.
use vstd::prelude::*;

verus! {

/// A candidate release tag: its name, the author time of the commit it points
/// to (seconds), and that commit's id as text.
pub struct Tag {
    pub name: String,
    pub time: i64,
    pub oid: String,
}

/// Glob pattern of release tag names: `v*` at the top level, `folder/*` for
/// a folder.
pub open spec fn tag_pattern_spec(folder: Seq<char>) -> Seq<char> {
    if folder.len() == 0 {
        "v*"@
    } else {
        folder + "/*"@
    }
}

/// Index of the latest tag: the greatest author time, the first one on ties.
pub open spec fn is_latest(tags: Seq<Tag>, i: int) -> bool {
    &&& 0 <= i < tags.len()
    &&& forall|j: int| 0 <= j < tags.len() ==> #[trigger] tags[j].time <= tags[i].time
    &&& forall|j: int| 0 <= j < i ==> #[trigger] tags[j].time < tags[i].time
}

/// Glob pattern of the release tags of a folder (empty for the whole
/// repository).
pub fn tag_pattern(folder: &str) -> (r: String)
    ensures
        r@ == tag_pattern_spec(folder@),
{
    proof {
        reveal_strlit("v*");
        reveal_strlit("/*");
    }
    if folder.unicode_len() == 0 {
        String::from_str("v*")
    } else {
        let mut r = String::from_str(folder);
        r.append("/*");
        r
    }
}

/// Position of the last release among tags that resolved to a commit, in
/// enumeration order: the one whose commit has the greatest author time, the
/// first one seen on ties; `None` when there is none.
pub fn latest_release_index(tags: &Vec<Tag>) -> (r: Option<usize>)
    ensures
        match r {
            Some(i) => is_latest(tags@, i as int),
            None => tags@.len() == 0,
        },
{
    if tags.len() == 0 {
        return None;
    }
    let mut best: usize = 0;
    let mut i: usize = 1;
    while i < tags.len()
        invariant
            1 <= i <= tags@.len(),
            best < i,
            forall|j: int| 0 <= j < i ==> #[trigger] tags@[j].time <= tags@[best as int].time,
            forall|j: int| 0 <= j < best ==> #[trigger] tags@[j].time < tags@[best as int].time,
        decreases tags@.len() - i,
    {
        if tags[i].time > tags[best].time {
            best = i;
        }
        i = i + 1;
    }
    Some(best)
}

} // verus!
