//! The patcher's configuration: the window title, the URL of the version
//! manifest, and per host system the places where an installation usually
//! lies.

use vstd::prelude::*;

verus! {

/// Where an installation may lie on one host system.
pub struct DefaultPaths {
    pub target_os: String,
    pub possible_paths: Vec<String>,
}

/// The patcher's configuration.
pub struct PatcherConfig {
    pub window_name: String,
    pub source: String,
    pub default_paths: Vec<DefaultPaths>,
}

impl Default for PatcherConfig {
    fn default() -> (r: PatcherConfig)
        ensures
            r.window_name@ == "Patcher"@,
            r.source@.len() == 0,
            r.default_paths@.len() == 0,
    {
        PatcherConfig { window_name: "Patcher".to_owned(), source: String::new(), default_paths: Vec::new() }
    }
}

/// The candidate paths for the host system `os`: the possible paths of every
/// entry for that system, in order.
pub open spec fn os_candidates(dp: Seq<DefaultPaths>, os: Seq<char>) -> Seq<String>
    decreases dp.len(),
{
    if dp.len() == 0 {
        Seq::empty()
    } else if dp.last().target_os@ == os {
        os_candidates(dp.drop_last(), os) + dp.last().possible_paths@
    } else {
        os_candidates(dp.drop_last(), os)
    }
}

/// `p` starts with a tilde.
pub open spec fn starts_with_tilde(p: Seq<char>) -> bool {
    p.len() > 0 && p[0] == '~'
}

/// Relies on `shellexpand::tilde`: a path that does not start with a tilde is
/// returned as it is; a leading `~` or `~/` becomes the home directory, and
/// what follows the tilde always ends the result.
#[verifier::external_body]
fn expand_tilde(p: &String) -> (r: String)
    ensures
        !starts_with_tilde(p@) ==> r@ == p@,
        starts_with_tilde(p@) ==> r@.len() + 1 >= p@.len() && r@.subrange(r@.len() - (p@.len() - 1), r@.len() as int)
            == p@.drop_first(),
{
    shellexpand::tilde(p).into_owned()
}

impl PatcherConfig {
    /// The candidate installation paths for the host system `os`, in order,
    /// with a leading tilde expanded to the home directory.
    pub fn default_path_candidates(&self, os: &String) -> (r: Vec<String>)
        ensures
            r@.len() == os_candidates(self.default_paths@, os@).len(),
            forall|k: int| 0 <= k < r@.len() && !starts_with_tilde(#[trigger] os_candidates(self.default_paths@, os@)[k]@)
                ==> r@[k]@ == os_candidates(self.default_paths@, os@)[k]@,
    {
        let mut out: Vec<String> = Vec::new();
        let mut i: usize = 0;
        while i < self.default_paths.len()
            invariant
                i <= self.default_paths@.len(),
                out@.len() == os_candidates(self.default_paths@.take(i as int), os@).len(),
                forall|k: int| 0 <= k < out@.len() && !starts_with_tilde(#[trigger] os_candidates(self.default_paths@.take(i as int), os@)[k]@)
                    ==> out@[k]@ == os_candidates(self.default_paths@.take(i as int), os@)[k]@,
            decreases self.default_paths@.len() - i,
        {
            let ghost before = os_candidates(self.default_paths@.take(i as int), os@);
            assert(self.default_paths@.take(i + 1).drop_last() =~= self.default_paths@.take(i as int));
            let entry = &self.default_paths[i];
            if entry.target_os == *os {
                let mut j: usize = 0;
                while j < entry.possible_paths.len()
                    invariant
                        out@.len() == before.len() + j,
                        j <= entry.possible_paths@.len(),
                        forall|k: int| 0 <= k < out@.len() && !starts_with_tilde(#[trigger] (before + entry.possible_paths@)[k]@)
                            ==> out@[k]@ == (before + entry.possible_paths@)[k]@,
                    decreases entry.possible_paths@.len() - j,
                {
                    let p = expand_tilde(&entry.possible_paths[j]);
                    out.push(p);
                    j = j + 1;
                }
            }
            i = i + 1;
        }
        assert(self.default_paths@.take(i as int) =~= self.default_paths@);
        out
    }
}

} // verus!
