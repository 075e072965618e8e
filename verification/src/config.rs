//! Repository configuration entities and the locations of the
//! orchestrator's on-disk files.

use vstd::prelude::*;
use vstd::string::StringExecFns;

verus! {

/// One registered repository: a name, the path of its working copy, the
/// tools that may run in it, and which of them is offered by default.
#[derive(Debug, Clone)]
pub struct RepoConfig {
    pub name: String,
    pub path: String,
    pub tools: Vec<String>,
    pub default_tool: String,
}

/// The whole repository configuration file.
#[derive(Debug, Clone)]
pub struct RepoConfigFile {
    pub repos: Vec<RepoConfig>,
}

impl Default for RepoConfigFile {
    /// An empty configuration, used when no file exists yet.
    fn default() -> (r: RepoConfigFile)
        ensures
            r.repos@.len() == 0,
    {
        RepoConfigFile { repos: Vec::new() }
    }
}

/// Relies on directories::ProjectDirs::from and config_dir: locates the
/// per-user configuration directory.  The result depends on the
/// environment, so nothing is promised of it.
#[verifier::external_body]
pub fn config_dir() -> (r: Option<String>) {
    directories::ProjectDirs::from("", "", "workforest").map(
        |dirs| dirs.config_dir().to_string_lossy().into_owned(),
    )
}

/// Relies on directories::ProjectDirs::from and data_dir: locates the
/// per-user data directory.  The result depends on the environment, so
/// nothing is promised of it.
#[verifier::external_body]
pub fn data_dir() -> (r: Option<String>) {
    directories::ProjectDirs::from("", "", "workforest").map(
        |dirs| dirs.data_dir().to_string_lossy().into_owned(),
    )
}

/// Append `"/"` and `file` to a directory path.
pub fn join_path(dir: &String, file: &str) -> (r: String)
    ensures
        r@ == dir@ + "/"@ + file@,
{
    let mut out = dir.clone();
    out.append("/");
    out.append(file);
    out
}

/// The repository configuration file, `repos.toml` in the configuration
/// directory; `None` when the environment provides no such directory.
pub fn repos_config_path() -> (r: Option<String>)
    ensures
        r matches Some(p) ==> p@.len() >= "/repos.toml"@.len() && p@.skip(p@.len() - (
        "/repos.toml"@.len() as int)) == "/repos.toml"@,
{
    match config_dir() {
        None => None,
        Some(dir) => {
            let p = join_path(&dir, "repos.toml");
            proof {
                reveal_strlit("/");
                reveal_strlit("repos.toml");
                reveal_strlit("/repos.toml");
                assert(p@.skip(dir@.len() as int) =~= "/repos.toml"@);
            }
            Some(p)
        },
    }
}

/// The supervisor metadata file, `server.json` in the configuration
/// directory; `None` when the environment provides no such directory.
pub fn metadata_path() -> (r: Option<String>)
    ensures
        r matches Some(p) ==> p@.len() >= "/server.json"@.len() && p@.skip(p@.len() - (
        "/server.json"@.len() as int)) == "/server.json"@,
{
    match config_dir() {
        None => None,
        Some(dir) => {
            let p = join_path(&dir, "server.json");
            proof {
                reveal_strlit("/");
                reveal_strlit("server.json");
                reveal_strlit("/server.json");
                assert(p@.skip(dir@.len() as int) =~= "/server.json"@);
            }
            Some(p)
        },
    }
}

/// The tools offered for a newly registered repository.
pub fn default_tools() -> (r: Vec<String>)
    ensures
        r@.len() == 3,
        r@[0]@ == "opencode"@,
        r@[1]@ == "aider"@,
        r@[2]@ == "codex"@,
{
    let mut tools: Vec<String> = Vec::new();
    tools.push("opencode".to_owned());
    tools.push("aider".to_owned());
    tools.push("codex".to_owned());
    tools
}

/// The position of the repository's default tool in its tool list, or 0
/// when the default is not listed.
pub fn default_tool_index(repo: &RepoConfig) -> (r: usize)
    ensures
        r == 0 || r < repo.tools@.len(),
        (exists|i: int|
            0 <= i < repo.tools@.len() && repo.tools@[i]@ == repo.default_tool@) ==> {
            &&& r < repo.tools@.len()
            &&& repo.tools@[r as int]@ == repo.default_tool@
            &&& forall|k: int| 0 <= k < r ==> repo.tools@[k]@ != repo.default_tool@
        },
        (forall|i: int|
            0 <= i < repo.tools@.len() ==> repo.tools@[i]@ != repo.default_tool@) ==> r == 0,
{
    let n: usize = repo.tools.len();
    let mut i: usize = 0;
    while i < n
        invariant
            i <= n,
            n == repo.tools@.len(),
            forall|k: int| 0 <= k < i ==> repo.tools@[k]@ != repo.default_tool@,
        decreases n - i,
    {
        if repo.tools[i] == repo.default_tool {
            return i;
        }
        i = i + 1;
    }
    0
}

} // verus!
