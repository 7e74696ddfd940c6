//! Small platform-neutral helpers.

use crate::text::chars_of;
use crate::text::join_path;
use crate::text::joined;
use crate::text::parse_u32;
use crate::text::parsed_u32;
use vstd::prelude::*;

verus! {

/// Number of worker threads to hand to a CPU-bound tool when the machine has
/// `cpu_cores` cores: half of them, and never fewer than one.
pub open spec fn recommended_threads(cpu_cores: nat) -> nat {
    if cpu_cores / 2 >= 1 {
        cpu_cores / 2
    } else {
        1
    }
}

/// Thread count for CPU-intensive work on a machine with `cpu_cores` cores.
pub fn get_recommended_threads(cpu_cores: usize) -> (threads: usize)
    ensures
        threads == recommended_threads(cpu_cores as nat),
        threads >= 1,
{
    let half: usize = cpu_cores / 2;
    if half >= 1 {
        half
    } else {
        1
    }
}

/// The number of processor cores to reckon with: what the system reports,
/// or 2 if it reports nothing.
pub fn get_cpu_cores(available: Option<usize>) -> (cores: usize)
    ensures
        cores == match available {
            Some(n) => n,
            None => 2,
        },
{
    match available {
        Some(n) => n,
        None => 2,
    }
}

/// The directories that the system offers for an application's files.
#[derive(Debug)]
pub struct SystemDirs {
    /// Home of the user who started the application with raised
    /// privileges, if it runs as the superuser on their behalf.
    pub invoking_user_home: Option<String>,
    /// The user's cache directory.
    pub cache_dir: Option<String>,
    /// The user's directory for local data.
    pub data_local_dir: Option<String>,
    /// The directory above the directory for temporary files.
    pub temp_parent: Option<String>,
    /// The directory for temporary files.
    pub temp_dir: String,
}

/// The directory below which an application keeps its cache: the cache
/// directory of the user on whose behalf it runs, else the user's cache
/// directory, else the one for local data, else the one above the
/// temporary files, else the one for temporary files.
pub open spec fn cache_base(dirs: SystemDirs) -> Seq<char> {
    if dirs.invoking_user_home is Some {
        joined(dirs.invoking_user_home->0@, ".cache"@)
    } else if dirs.cache_dir is Some {
        dirs.cache_dir->0@
    } else if dirs.data_local_dir is Some {
        dirs.data_local_dir->0@
    } else if dirs.temp_parent is Some {
        dirs.temp_parent->0@
    } else {
        dirs.temp_dir@
    }
}

/// The cache directory of the application called `app_name`.
pub fn get_cache_dir(app_name: &str, dirs: &SystemDirs) -> (dir: String)
    ensures
        dir@ == joined(cache_base(*dirs), app_name@),
{
    match &dirs.invoking_user_home {
        Some(home) => {
            let base = join_path(home.as_str(), ".cache");
            return join_path(base.as_str(), app_name);
        },
        None => {},
    }
    match &dirs.cache_dir {
        Some(dir) => {
            return join_path(dir.as_str(), app_name);
        },
        None => {},
    }
    match &dirs.data_local_dir {
        Some(dir) => {
            return join_path(dir.as_str(), app_name);
        },
        None => {},
    }
    match &dirs.temp_parent {
        Some(dir) => {
            return join_path(dir.as_str(), app_name);
        },
        None => {},
    }
    join_path(dirs.temp_dir.as_str(), app_name)
}

/// The user id of whoever raised the application's privileges: what
/// `PKEXEC_UID` holds if it is set, else what `SUDO_UID` holds, if that is a
/// number.
pub fn invoking_user_id(pkexec_uid: Option<&str>, sudo_uid: Option<&str>) -> (uid: Option<u32>)
    ensures
        uid == match pkexec_uid {
            Some(text) => parsed_u32(text@),
            None => match sudo_uid {
                Some(text) => parsed_u32(text@),
                None => None,
            },
        },
{
    let text = match pkexec_uid {
        Some(text) => text,
        None => match sudo_uid {
            Some(text) => text,
            None => {
                return None;
            },
        },
    };
    let chars = chars_of(text);
    proof {
        assert(chars@.skip(0) =~= text@);
    }
    parse_u32(&chars, 0)
}

/// The operating system that the application runs on.
#[derive(Debug, Clone, Copy, PartialEq, Eq, Structural)]
pub enum Platform {
    MacOs,
    Linux,
    Windows,
    Other,
}

/// The places where a tool called `name` is looked for, in the order in
/// which they are tried.
pub open spec fn search_paths(name: Seq<char>, platform: Platform) -> Seq<Seq<char>> {
    match platform {
        Platform::MacOs => seq![
            "/opt/homebrew/bin/"@ + name,
            "/usr/local/bin/"@ + name,
            "/usr/bin/"@ + name,
        ],
        Platform::Linux => seq!["/usr/bin/"@ + name, "/bin/"@ + name, "/usr/local/bin/"@ + name],
        Platform::Windows => seq![
            "C:\\Program Files\\"@ + name + "\\"@ + name + ".exe"@,
            "C:\\Program Files (x86)\\"@ + name + "\\"@ + name + ".exe"@,
        ],
        Platform::Other => seq!["/usr/bin/"@ + name],
    }
}

/// The views of a list of strings.
pub open spec fn texts(strings: Seq<String>) -> Seq<Seq<char>> {
    Seq::new(strings.len(), |i: int| strings[i]@)
}

fn below(dir: &str, name: &str) -> (path: String)
    ensures
        path@ == dir@ + name@,
{
    let mut path = dir.to_owned();
    path.append(name);
    path
}

fn program_file(dir: &str, name: &str) -> (path: String)
    ensures
        path@ == dir@ + name@ + "\\"@ + name@ + ".exe"@,
{
    let mut path = dir.to_owned();
    path.append(name);
    path.append("\\");
    path.append(name);
    path.append(".exe");
    path
}

/// The paths at which a tool called `name` may be installed on the given
/// system.
pub fn get_binary_search_paths(name: &str, platform: Platform) -> (paths: Vec<String>)
    ensures
        texts(paths@) == search_paths(name@, platform),
{
    let mut paths: Vec<String> = Vec::new();
    match platform {
        Platform::MacOs => {
            paths.push(below("/opt/homebrew/bin/", name));
            paths.push(below("/usr/local/bin/", name));
            paths.push(below("/usr/bin/", name));
        },
        Platform::Linux => {
            paths.push(below("/usr/bin/", name));
            paths.push(below("/bin/", name));
            paths.push(below("/usr/local/bin/", name));
        },
        Platform::Windows => {
            paths.push(program_file("C:\\Program Files\\", name));
            paths.push(program_file("C:\\Program Files (x86)\\", name));
        },
        Platform::Other => {
            paths.push(below("/usr/bin/", name));
        },
    }
    proof {
        assert(texts(paths@) =~= search_paths(name@, platform));
    }
    paths
}

/// `is_present` was asked about the path `text` and did not find it.
pub open spec fn was_absent<F: Fn(&String) -> bool>(is_present: F, text: Seq<char>) -> bool {
    exists|path: String| path@ == text && call_ensures(is_present, (&path,), false)
}

/// The first of the places where a tool called `name` may be installed at
/// which `is_present` finds it.  The places are tried in order, and none
/// after the first hit.
pub fn find_binary<F: Fn(&String) -> bool>(name: &str, platform: Platform, is_present: F) -> (found:
    Option<String>)
    requires
        forall|path: String| call_requires(is_present, (&path,)),
    ensures
        match found {
            Some(path) => exists|i: int|
                {
                    &&& 0 <= i < search_paths(name@, platform).len()
                    &&& #[trigger] search_paths(name@, platform)[i] == path@
                    &&& call_ensures(is_present, (&path,), true)
                    &&& forall|j: int|
                        0 <= j < i ==> was_absent(
                            is_present,
                            #[trigger] search_paths(name@, platform)[j],
                        )
                },
            None => forall|j: int|
                0 <= j < search_paths(name@, platform).len() ==> was_absent(
                    is_present,
                    #[trigger] search_paths(name@, platform)[j],
                ),
        },
{
    let mut paths = get_binary_search_paths(name, platform);
    let ghost all = paths@;
    let ghost places = search_paths(name@, platform);
    let ghost mut tried: int = 0;
    while paths.len() > 0
        invariant
            texts(all) == places,
            places == search_paths(name@, platform),
            0 <= tried,
            tried + paths.len() == all.len(),
            forall|i: int| 0 <= i < paths.len() ==> paths[i] == all[tried + i],
            forall|j: int| 0 <= j < tried ==> was_absent(is_present, #[trigger] places[j]),
            forall|path: String| call_requires(is_present, (&path,)),
        decreases paths.len(),
    {
        let candidate = paths.remove(0);
        let present = is_present(&candidate);
        proof {
            assert(texts(all)[tried] == candidate@);
        }
        if present {
            proof {
                assert(places[tried] == candidate@);
            }
            return Some(candidate);
        }
        proof {
            assert(was_absent(is_present, places[tried]));
            tried = tried + 1;
        }
    }
    None
}

/// Sum of the given sizes.
pub open spec fn sum_of(sizes: Seq<u64>) -> nat
    decreases sizes.len(),
{
    if sizes.len() == 0 {
        0
    } else {
        sum_of(sizes.drop_last()) + sizes.last() as nat
    }
}

/// The sum of the given sizes, or the largest number that 64 bits hold if
/// the sum is beyond it.
pub open spec fn capped_sum(sizes: Seq<u64>) -> u64 {
    if sum_of(sizes) <= u64::MAX {
        sum_of(sizes) as u64
    } else {
        u64::MAX
    }
}

/// How many bytes files of the given sizes take up together.
pub fn total_bytes(sizes: &Vec<u64>) -> (total: u64)
    ensures
        total == capped_sum(sizes@),
{
    let mut total: u64 = 0;
    let mut i: usize = 0;
    while i < sizes.len()
        invariant
            0 <= i <= sizes.len(),
            total == capped_sum(sizes@.take(i as int)),
        decreases sizes.len() - i,
    {
        proof {
            assert(sizes@.take(i + 1).drop_last() =~= sizes@.take(i as int));
        }
        total = total.saturating_add(sizes[i]);
        i += 1;
    }
    proof {
        assert(sizes@.take(sizes.len() as int) =~= sizes@);
    }
    total
}

} // verus!
