//! The project layout resolver: config-file candidates, content
//! directories, project validation, and the server-process registry's
//! bookkeeping.

use vstd::prelude::*;

use crate::model::strings_view;

verus! {

/// What running an external build command reports back.
pub struct CommandOutput {
    pub success: bool,
    pub stdout: String,
    pub stderr: String,
    pub exit_code: i32,
}

/// The canonical config file names, tried in order.
pub open spec fn candidate_name(i: int) -> Seq<char> {
    if i == 0 {
        "hugo.toml"@
    } else if i == 1 {
        "hugo.yaml"@
    } else if i == 2 {
        "hugo.yml"@
    } else if i == 3 {
        "hugo.json"@
    } else if i == 4 {
        "config.toml"@
    } else if i == 5 {
        "config.yaml"@
    } else if i == 6 {
        "config.yml"@
    } else {
        "config.json"@
    }
}

/// The full candidate paths: the eight names at the root, then the same
/// names under the nested default-config directory.
pub open spec fn candidate_path(root: Seq<char>, i: int) -> Seq<char> {
    if i < 8 {
        root + "/"@ + candidate_name(i)
    } else {
        root + "/config/_default/"@ + candidate_name(i - 8)
    }
}

/// Index of the first `true` in `ex` at or after `i`, or the length.
pub open spec fn first_true(ex: Seq<bool>, i: int) -> int
    decreases ex.len() - i,
{
    if i < 0 || i >= ex.len() {
        ex.len() as int
    } else if ex[i] {
        i
    } else {
        first_true(ex, i + 1)
    }
}

/// A project root and the directory conventions hanging off it.
pub struct HugoProject {
    pub path: String,
}

impl HugoProject {
    /// Wraps a project root path.
    pub fn new(path: String) -> (r: Self)
        ensures
            r.path@ == path@,
    {
        Self { path }
    }

    /// The content root: `content` under the project root.
    pub fn get_content_dir(&self) -> (r: String)
        ensures
            r@ == self.path@ + "/content"@,
    {
        self.path.clone().concat("/content")
    }

    /// The posts directory: prefers the plural name, falls back to the
    /// singular one, then to the content root itself. The caller reports
    /// which of the two directories exist.
    pub fn get_posts_dir(&self, has_plural: bool, has_singular: bool) -> (r: String)
        ensures
            has_plural ==> r@ == self.path@ + "/content"@ + "/posts"@,
            !has_plural && has_singular ==> r@ == self.path@ + "/content"@ + "/post"@,
            !has_plural && !has_singular ==> r@ == self.path@ + "/content"@,
    {
        if has_plural {
            self.get_content_dir().concat("/posts")
        } else if has_singular {
            self.get_content_dir().concat("/post")
        } else {
            self.get_content_dir()
        }
    }

    /// The pages directory: the content root. Pages are told apart by
    /// filename convention, not by a directory of their own.
    pub fn get_pages_dir(&self) -> (r: String)
        ensures
            r@ == self.path@ + "/content"@,
    {
        self.get_content_dir()
    }

    /// The drafts directory: a fixed subdirectory of the content root.
    pub fn get_drafts_dir(&self) -> (r: String)
        ensures
            r@ == self.path@ + "/content"@ + "/drafts"@,
    {
        self.get_content_dir().concat("/drafts")
    }

    /// The static-assets directory at the top level.
    pub fn get_static_dir(&self) -> (r: String)
        ensures
            r@ == self.path@ + "/static"@,
    {
        self.path.clone().concat("/static")
    }

    /// The ordered candidate config paths.
    pub fn config_candidates(&self) -> (r: Vec<String>)
        ensures
            r@.len() == 16,
            forall|i: int| 0 <= i < 16 ==> (#[trigger] r@[i])@ == candidate_path(self.path@, i),
    {
        let names: Vec<&str> = vec![
            "hugo.toml",
            "hugo.yaml",
            "hugo.yml",
            "hugo.json",
            "config.toml",
            "config.yaml",
            "config.yml",
            "config.json",
        ];
        proof {
            assert(forall|i: int| 0 <= i < 8 ==> (#[trigger] names@[i])@ == candidate_name(i));
        }
        let mut out: Vec<String> = Vec::new();
        let mut i: usize = 0;
        while i < 8
            invariant
                i <= 8,
                names@.len() == 8,
                forall|k: int| 0 <= k < 8 ==> (#[trigger] names@[k])@ == candidate_name(k),
                out@.len() == i,
                forall|k: int|
                    0 <= k < i ==> (#[trigger] out@[k])@ == candidate_path(self.path@, k),
            decreases 8 - i,
        {
            out.push(self.path.clone().concat("/").concat(names[i]));
            i = i + 1;
        }
        let mut j: usize = 0;
        while j < 8
            invariant
                j <= 8,
                names@.len() == 8,
                forall|k: int| 0 <= k < 8 ==> (#[trigger] names@[k])@ == candidate_name(k),
                out@.len() == 8 + j,
                forall|k: int|
                    0 <= k < 8 + j ==> (#[trigger] out@[k])@ == candidate_path(self.path@, k),
            decreases 8 - j,
        {
            out.push(self.path.clone().concat("/config/_default/").concat(names[j]));
            j = j + 1;
        }
        out
    }

    /// First existing candidate config path. `exists` answers, for each
    /// candidate in order, whether a file stands at that path.
    pub fn find_config_path(&self, exists: &Vec<bool>) -> (r: Option<String>)
        requires
            exists@.len() == 16,
        ensures
            (match r {
                Some(s) => first_true(exists@, 0) < 16 && s@ == candidate_path(
                    self.path@,
                    first_true(exists@, 0),
                ),
                None => first_true(exists@, 0) == 16,
            }),
    {
        let cands = self.config_candidates();
        let mut i: usize = 0;
        while i < 16
            invariant
                i <= 16,
                exists@.len() == 16,
                cands@.len() == 16,
                forall|k: int|
                    0 <= k < 16 ==> (#[trigger] cands@[k])@ == candidate_path(self.path@, k),
                first_true(exists@, 0) == first_true(exists@, i as int),
            decreases 16 - i,
        {
            if exists[i] {
                return Some(cands[i].clone());
            }
            i = i + 1;
        }
        None
    }

    /// A project is valid only when a config file resolves and the content
    /// root exists as a directory. The caller reports both facts.
    pub fn validate(&self, has_config: bool, content_is_dir: bool) -> (r: Result<bool, String>)
        ensures
            (match r {
                Ok(b) => has_config && content_is_dir && b,
                Err(e) => !has_config && e@ == "Hugo config not found (config.* or hugo.*)"@ || (
                has_config && !content_is_dir && e@ == "content/ directory not found"@),
            }),
    {
        if !has_config {
            return Err("Hugo config not found (config.* or hugo.*)".to_owned());
        }
        if !content_is_dir {
            return Err("content/ directory not found".to_owned());
        }
        Ok(true)
    }
}

/// Index of the first key equal to `k`, or the length.
pub open spec fn index_of_key(keys: Seq<Seq<char>>, k: Seq<char>, i: int) -> int
    decreases keys.len() - i,
{
    if i < 0 || i >= keys.len() {
        keys.len() as int
    } else if keys[i] == k {
        i
    } else {
        index_of_key(keys, k, i + 1)
    }
}

/// The registry of running server processes, keyed by project path. The
/// process handles themselves live with the caller; this holds the
/// bookkeeping that makes double starts impossible and stops exact.
pub struct ServerRegistry {
    pub keys: Vec<String>,
}

impl View for ServerRegistry {
    type V = Seq<Seq<char>>;

    open spec fn view(&self) -> Seq<Seq<char>> {
        strings_view(self.keys@)
    }
}

impl ServerRegistry {
    /// An empty registry.
    pub fn new() -> (r: Self)
        ensures
            r@ == Seq::<Seq<char>>::empty(),
    {
        let r = ServerRegistry { keys: Vec::new() };
        proof {
            assert(r@ =~= Seq::<Seq<char>>::empty());
        }
        r
    }

    /// Whether a server is tracked under this key.
    pub fn is_server_running(&self, key: &str) -> (r: bool)
        ensures
            r == self@.contains(key@),
    {
        let k = key.to_owned();
        let mut i: usize = 0;
        while i < self.keys.len()
            invariant
                i <= self.keys@.len(),
                k@ == key@,
                forall|j: int| 0 <= j < i ==> self@[j] != key@,
            decreases self.keys@.len() - i,
        {
            if self.keys[i] == k {
                proof {
                    assert(self@[i as int] == key@);
                }
                return true;
            }
            i = i + 1;
        }
        proof {
            if self@.contains(key@) {
                let j = choose|j: int| 0 <= j < self@.len() && self@[j] == key@;
            }
        }
        false
    }

    /// Tracks a new server under `key`. Starting a second server for the
    /// same key is rejected and changes nothing.
    pub fn start_server(&mut self, key: String) -> (r: Result<String, String>)
        ensures
            (match r {
                Ok(id) => !old(self)@.contains(key@) && id@ == key@ && final(self)@ == old(self)@.push(key@),
                Err(e) => old(self)@.contains(key@) && e@ == "Server is already running"@
                    && final(self)@ == old(self)@,
            }),
    {
        if self.is_server_running(key.as_str()) {
            return Err("Server is already running".to_owned());
        }
        let id = key.clone();
        let ghost before = self@;
        self.keys.push(key);
        proof {
            assert(self@ =~= before.push(id@));
        }
        Ok(id)
    }

    /// Stops the server tracked under `key`, removing it; reports failure
    /// when no server is tracked under that key.
    pub fn stop_server(&mut self, key: &str) -> (r: Result<(), String>)
        ensures
            (match r {
                Ok(()) => old(self)@.contains(key@) && final(self)@ == old(self)@.remove(
                    index_of_key(old(self)@, key@, 0),
                ),
                Err(e) => !old(self)@.contains(key@) && e@ == "Server not found"@ && final(self)@
                    == old(self)@,
            }),
    {
        let k = key.to_owned();
        let mut i: usize = 0;
        while i < self.keys.len()
            invariant
                i <= self.keys@.len(),
                k@ == key@,
                self.keys@ == old(self).keys@,
                forall|j: int| 0 <= j < i ==> self@[j] != key@,
                index_of_key(self@, key@, 0) == index_of_key(self@, key@, i as int),
            decreases self.keys@.len() - i,
        {
            if self.keys[i] == k {
                proof {
                    assert(self@[i as int] == key@);
                    assert(index_of_key(old(self)@, key@, 0) == i);
                }
                let ghost before = self@;
                self.keys.remove(i);
                proof {
                    assert(self@ =~= before.remove(i as int)) by {
                        assert(self.keys@ =~= old(self).keys@.remove(i as int));
                        assert forall|j: int| 0 <= j < self@.len() implies self@[j]
                            == before.remove(i as int)[j] by {
                            if j < i {
                                assert(self.keys@[j] == old(self).keys@[j]);
                            } else {
                                assert(self.keys@[j] == old(self).keys@[j + 1]);
                            }
                        }
                    }
                }
                return Ok(());
            }
            i = i + 1;
        }
        proof {
            if self@.contains(key@) {
                let j = choose|j: int| 0 <= j < self@.len() && self@[j] == key@;
            }
        }
        Err("Server not found".to_owned())
    }
}

} // verus!
