//! The repository cache as the library sees it: whether the `.mp` directory
//! is present and which immediate subdirectories it holds. The unverified
//! shell observes the filesystem once per command and hands the observation
//! in as a `CacheState`; every command's gate and its outcome are decided
//! here.

use vstd::prelude::*;
use vstd::string::StringExecFns;
use crate::url::repo_name_of;
use crate::url::repo_name;

verus! {

/// One observation of the repository cache: whether the `.mp` directory
/// exists, and the names of its immediate subdirectories (in the order the
/// directory enumeration produced them).
pub struct CacheState {
    pub present: bool,
    pub folders: Vec<String>,
}

/// The folder names of a cache observation, as sequences of characters.
pub open spec fn folder_names(c: &CacheState) -> Seq<Seq<char>> {
    c.folders.deep_view()
}

/// True iff the cache directory was present in the observation. Every
/// command but `init` aborts when this is false.
pub fn verify_mp_folder_exists(cache: &CacheState) -> (r: bool)
    ensures
        r == cache.present,
{
    cache.present
}

/// What `init` does to the cache: the directory exists afterwards and the
/// tracked folders are untouched.
pub open spec fn init_spec(c: CacheState) -> CacheState {
    CacheState { present: true, folders: c.folders }
}

/// `init` creates the cache directory (the shell performs the actual
/// `mkdir -p`); on a cache that is already present it changes nothing.
pub fn init(cache: CacheState) -> (r: CacheState)
    ensures
        r == init_spec(cache),
        r.present,
        r.folders == cache.folders,
        cache.present ==> r == cache,
{
    CacheState { present: true, folders: cache.folders }
}

/// `init` is idempotent: after one `init` the cache is present, and a second
/// `init` returns the very same state (so in particular the directory is
/// present both times and the second call cannot fail).
pub proof fn lemma_init_idempotent(c: CacheState)
    ensures
        init_spec(c).present,
        init_spec(init_spec(c)) == init_spec(c),
{
}

/// What `list` found.
pub enum ListOutcome {
    /// The cache directory is missing; the command aborts.
    CacheMissing,
    /// The cache is present but holds no repositories.
    NoRepos,
    /// The tracked repositories, in enumeration order.
    Found(Vec<String>),
}

/// `list` reports exactly the cache's subdirectory names: all of them, in
/// the observed order, and a "none found" outcome precisely when there are
/// none.
pub fn list(cache: CacheState) -> (r: ListOutcome)
    ensures
        r is CacheMissing <==> !cache.present,
        r is NoRepos <==> cache.present && cache.folders@.len() == 0,
        r matches ListOutcome::Found(v) ==> v == cache.folders && cache.folders@.len() > 0,
        cache.present && cache.folders@.len() > 0 ==> r is Found,
{
    if !verify_mp_folder_exists(&cache) {
        ListOutcome::CacheMissing
    } else if cache.folders.len() == 0 {
        ListOutcome::NoRepos
    } else {
        ListOutcome::Found(cache.folders)
    }
}

/// What `add` decides.
pub enum AddOutcome {
    /// The cache directory is missing; nothing is cloned.
    CacheMissing,
    /// The URL carries no repository name; nothing is cloned.
    InvalidUrl,
    /// A subdirectory of that name is already in the cache; nothing is
    /// cloned and the existing subdirectory is left untouched.
    AlreadyExists,
    /// Clone into a new cache subdirectory of this name.
    CloneInto(String),
}

/// `add` refuses a missing cache, a URL without a name, and a name that is
/// already tracked — in that order — and asks for a clone exactly otherwise,
/// under the name the URL carries. It never touches an existing
/// subdirectory: only a name not yet present comes back as `CloneInto`.
pub fn add(cache: &CacheState, url: &str) -> (r: AddOutcome)
    ensures
        r is CacheMissing <==> !cache.present,
        r is InvalidUrl <==> cache.present && repo_name_of(url@) is None,
        r is AlreadyExists <==> cache.present && (repo_name_of(url@) matches Some(nm)
            && folder_names(cache).contains(nm)),
        r matches AddOutcome::CloneInto(name) ==> cache.present && repo_name_of(url@) == Some(name@)
            && !folder_names(cache).contains(name@),
        cache.present && (repo_name_of(url@) matches Some(nm) && !folder_names(cache).contains(nm))
            ==> r is CloneInto,
{
    if !verify_mp_folder_exists(cache) {
        return AddOutcome::CacheMissing;
    }
    let name = match repo_name(url) {
        Some(nm) => nm,
        None => {
            return AddOutcome::InvalidUrl;
        },
    };
    let mut i: usize = 0;
    while i < cache.folders.len()
        invariant
            cache.present,
            i <= cache.folders.len(),
            repo_name_of(url@) == Some(name@),
            forall|m: int| 0 <= m < i ==> cache.folders@[m]@ != name@,
        decreases cache.folders.len() - i,
    {
        if cache.folders[i].eq(&name) {
            proof {
                assert(folder_names(cache)[i as int] == name@);
            }
            return AddOutcome::AlreadyExists;
        }
        i = i + 1;
    }
    proof {
        assert forall|m: int| 0 <= m < folder_names(cache).len() implies folder_names(cache)[m]
            != name@ by {
            assert(cache.folders@[m]@ != name@);
        }
    }
    AddOutcome::CloneInto(name)
}

/// The cache after a successful clone: the same directory, with the new
/// name appended to the enumeration.
pub fn apply_clone(cache: CacheState, name: String) -> (r: CacheState)
    ensures
        r.present == cache.present,
        r.folders@ == cache.folders@.push(name),
{
    let mut folders = cache.folders;
    folders.push(name);
    CacheState { present: cache.present, folders }
}

/// The cache directory's path: `.mp` under the resolved root.
pub fn cache_dir_path(root: &str) -> (r: String)
    ensures
        r@ == root@ + "/.mp"@,
{
    let mut s = root.to_owned();
    s.append("/.mp");
    s
}

/// The path of one tracked repository under the cache directory.
pub fn repo_path(cache_path: &str, name: &str) -> (r: String)
    ensures
        r@ == cache_path@ + "/"@ + name@,
{
    let mut s = cache_path.to_owned();
    s.append("/");
    s.append(name);
    s
}

/// Which home-directory value the root comes from: the primary value when
/// it is set, else the fallback, else nothing.
pub fn resolve_root(home: Option<String>, profile: Option<String>) -> (r: Option<String>)
    ensures
        home matches Some(h) ==> r == Some(h),
        home is None ==> r == profile,
{
    match home {
        Some(h) => Some(h),
        None => profile,
    }
}

} // verus!
