//! The two editions of the runtime. They share their rules and differ in the
//! names that they leave on the host and in a few policies.
use vstd::prelude::*;

verus! {

/// An edition of the runtime.
#[derive(Clone, Copy, Debug, PartialEq, Eq, Structural)]
pub enum Edition {
    /// State lives in a directory that the configuration names.
    Gnosis,
    /// State lives in one directory for the whole host.
    Kurumi,
}

impl Edition {
    /// The name under which the edition marks what it owns.
    pub open spec fn product_name(self) -> Seq<char> {
        match self {
            Edition::Gnosis => "gnosis"@,
            Edition::Kurumi => "kurumi-containerd"@,
        }
    }

    /// The directory for what lives as long as the host runs.
    pub open spec fn run_path(self) -> Seq<char> {
        match self {
            Edition::Gnosis => "/run/gnosis"@,
            Edition::Kurumi => "/run/kurumi-containerd"@,
        }
    }

    /// The name under which the edition marks what it owns.
    pub fn product(self) -> (name: &'static str)
        ensures
            name@ == self.product_name(),
    {
        match self {
            Edition::Gnosis => "gnosis",
            Edition::Kurumi => "kurumi-containerd",
        }
    }

    /// The directory for what lives as long as the host runs.
    pub fn run_directory(self) -> (path: &'static str)
        ensures
            path@ == self.run_path(),
    {
        match self {
            Edition::Gnosis => "/run/gnosis",
            Edition::Kurumi => "/run/kurumi-containerd",
        }
    }
}

/// The directory of an edition is named after it, and the two editions have
/// different ones.
pub proof fn law_editions_keep_apart(edition: Edition)
    ensures
        edition.run_path() == "/run/"@ + edition.product_name(),
        Edition::Gnosis.product_name() != Edition::Kurumi.product_name(),
        Edition::Gnosis.product_name() == "gnosis"@,
        Edition::Kurumi.product_name() == "kurumi-containerd"@,
{
    reveal_strlit("/run/");
    reveal_strlit("gnosis");
    reveal_strlit("kurumi-containerd");
    reveal_strlit("/run/gnosis");
    reveal_strlit("/run/kurumi-containerd");
    assert("/run/gnosis"@ =~= "/run/"@ + "gnosis"@);
    assert("/run/kurumi-containerd"@ =~= "/run/"@ + "kurumi-containerd"@);
    assert("gnosis"@.len() == 6 && "kurumi-containerd"@.len() == 17);
}

} // verus!
