//! Where the analysis results of media assets are kept: one JSON file and one
//! embeddings file per asset, in the project's `.proedit/analysis` directory.

use vstd::prelude::*;
use crate::ai::paths::{file_name, join_path, joined, make_file_name};

verus! {

/// The analysis directory of a project.
pub open spec fn analysis_dir_of(project_dir: Seq<char>) -> Seq<char> {
    joined(joined(project_dir, ".proedit"@), "analysis"@)
}

/// The position of the last `.` in `s`, if any.
pub open spec fn last_dot(s: Seq<char>) -> Option<int>
    decreases s.len(),
{
    if s.len() == 0 {
        None
    } else if s.last() == '.' {
        Some(s.len() - 1)
    } else {
        last_dot(s.drop_last())
    }
}

/// The asset id that a file of the analysis directory stands for: the file
/// name without its extension, where the extension is `json`. A name whose
/// only dot is its first character has no extension.
pub open spec fn json_stem(name: Seq<char>) -> Option<Seq<char>> {
    match last_dot(name) {
        Some(d) => if d > 0 && name.subrange(d + 1, name.len() as int) == "json"@ {
            Some(name.subrange(0, d))
        } else {
            None
        },
        None => None,
    }
}

/// The asset ids among `names`, in order.
pub open spec fn asset_ids(names: Seq<Seq<char>>) -> Seq<Seq<char>>
    decreases names.len(),
{
    if names.len() == 0 {
        Seq::empty()
    } else {
        let rest = asset_ids(names.drop_last());
        match json_stem(names.last()) {
            Some(id) => rest.push(id),
            None => rest,
        }
    }
}

proof fn lemma_last_dot_bounds(s: Seq<char>)
    ensures
        match last_dot(s) {
            Some(d) => 0 <= d < s.len() && s[d] == '.' && forall|k: int|
                d < k < s.len() ==> s[k] != '.',
            None => forall|k: int| 0 <= k < s.len() ==> s[k] != '.',
        },
    decreases s.len(),
{
    if s.len() > 0 {
        lemma_last_dot_bounds(s.drop_last());
        assert(forall|k: int| 0 <= k < s.len() - 1 ==> s.drop_last()[k] == s[k]);
    }
}

/// Find the last `.` of `s`.
fn find_last_dot(s: &str) -> (r: Option<usize>)
    ensures
        match r {
            Some(d) => last_dot(s@) == Some(d as int),
            None => last_dot(s@) is None,
        },
{
    let n = s.unicode_len();
    let mut i = n;
    assert(s@.take(n as int) =~= s@);
    while i > 0
        invariant
            i <= n,
            n == s@.len(),
            last_dot(s@) == last_dot(s@.take(i as int)),
        decreases i,
    {
        assert(s@.take(i as int).drop_last() =~= s@.take(i - 1));
        if s.get_char(i - 1) == '.' {
            return Some(i - 1);
        }
        i = i - 1;
    }
    assert(s@.take(0) =~= Seq::<char>::empty());
    None
}

/// The asset id of an analysis file name, or `None` for a file that holds no
/// analysis.
pub fn asset_id_of(name: &str) -> (r: Option<String>)
    ensures
        match r {
            Some(id) => json_stem(name@) == Some(id@),
            None => json_stem(name@) is None,
        },
{
    proof {
        reveal_strlit("json");
        lemma_last_dot_bounds(name@);
    }
    match find_last_dot(name) {
        Some(d) => {
            if d == 0 {
                return None;
            }
            let n = name.unicode_len();
            let ext = name.substring_char(d + 1, n);
            let is_json = ext.unicode_len() == 4 && ext.get_char(0) == 'j' && ext.get_char(1) == 's'
                && ext.get_char(2) == 'o' && ext.get_char(3) == 'n';
            if is_json {
                assert(ext@ =~= "json"@);
                Some(String::from_str(name.substring_char(0, d)))
            } else {
                proof {
                    if ext@ == "json"@ {
                        assert(ext@[0] == 'j' && ext@[1] == 's' && ext@[2] == 'o' && ext@[3] == 'n');
                    }
                }
                None
            }
        },
        None => None,
    }
}

/// Manages analysis result storage.
pub struct AnalysisStore {
    analysis_dir: String,
}

impl AnalysisStore {
    /// The analysis directory.
    pub closed spec fn dir(&self) -> Seq<char> {
        self.analysis_dir@
    }

    /// Create a new analysis store for the given project directory.
    pub fn new(project_dir: &str) -> (s: Self)
        ensures
            s.dir() == analysis_dir_of(project_dir@),
    {
        let hidden = join_path(project_dir, ".proedit");
        let dir = join_path(hidden.as_str(), "analysis");
        AnalysisStore { analysis_dir: dir }
    }

    /// Get the path to the analysis directory.
    pub fn analysis_dir(&self) -> (d: &str)
        ensures
            d@ == self.dir(),
    {
        self.analysis_dir.as_str()
    }

    /// JSON file path for an asset.
    pub fn json_path(&self, asset_id: &str) -> (p: String)
        ensures
            p@ == joined(self.dir(), file_name(asset_id@, "json"@)),
    {
        let name = make_file_name(asset_id, "json");
        join_path(self.analysis_dir.as_str(), name.as_str())
    }

    /// Embeddings file path for an asset.
    pub fn embeddings_path(&self, asset_id: &str) -> (p: String)
        ensures
            p@ == joined(self.dir(), file_name(asset_id@, "emb"@)),
    {
        let name = make_file_name(asset_id, "emb");
        join_path(self.analysis_dir.as_str(), name.as_str())
    }

    /// The ids of the analysed assets, given the names of the files in the
    /// analysis directory.
    pub fn analyzed_asset_ids(names: &Vec<String>) -> (ids: Vec<String>)
        ensures
            ids@.map_values(|s: String| s@) == asset_ids(names@.map_values(|s: String| s@)),
    {
        let ghost all = names@.map_values(|s: String| s@);
        let mut ids: Vec<String> = Vec::new();
        let mut i: usize = 0;
        while i < names.len()
            invariant
                i <= names.len(),
                all == names@.map_values(|s: String| s@),
                ids@.map_values(|s: String| s@) == asset_ids(all.take(i as int)),
            decreases names.len() - i,
        {
            assert(all.take(i + 1).drop_last() =~= all.take(i as int));
            assert(all.take(i + 1).last() == names@[i as int]@);
            let found = asset_id_of(names[i].as_str());
            match found {
                Some(id) => {
                    let ghost before = ids@;
                    ids.push(id);
                    assert(ids@.map_values(|s: String| s@) =~= before.map_values(
                        |s: String| s@,
                    ).push(ids@[ids@.len() - 1]@));
                },
                None => {},
            }
            i = i + 1;
        }
        assert(all.take(names.len() as int) =~= all);
        ids
    }
}

} // verus!
