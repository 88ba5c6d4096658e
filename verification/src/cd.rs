//! The command `cd`: where it goes.
use crate::text::texts;
use std::path::PathBuf;
use vstd::prelude::*;

verus! {

/// `std::path::PathBuf`, which is only passed on.
#[verifier::external_type_specification]
#[verifier::external_body]
pub struct ExPathBuf(PathBuf);

/// `dirs::home_dir`: the home directory of the user, from the environment or the user database.
/// Nothing is claimed of what it gives: it can be any path, or none.
pub assume_specification[ dirs::home_dir ]() -> (home: Option<PathBuf>);

/// A directory to go to.
#[derive(Debug)]
pub enum CdTarget {
    /// The home directory.
    Home(PathBuf),
    /// The directory of this name.
    Named(String),
}

/// Where `cd` goes, its name being the first of `args`: to its argument; without one to the home
/// directory, and to the root where there is no home. Further arguments do not matter.
pub open spec fn goes_to(args: Seq<Seq<char>>, home: Option<PathBuf>, to: CdTarget) -> bool {
    if args.len() == 1 {
        match home {
            Some(dir) => to == CdTarget::Home(dir),
            None => to matches CdTarget::Named(name) && name@ == "/"@,
        }
    } else {
        to matches CdTarget::Named(name) && name@ == args[1]
    }
}

/// Where `cd` goes: without an argument by what `dirs::home_dir` gives.
pub open spec fn cd_leads_to(args: Seq<Seq<char>>, to: CdTarget) -> bool {
    exists|home: Option<PathBuf>| #[trigger]
        goes_to(args, home, to) && (args.len() == 1 ==> call_ensures(dirs::home_dir, (), home))
}

/// Chooses where `cd` goes, for a given home directory.
pub fn cd_target(args: &[&str], home: Option<PathBuf>) -> (r: CdTarget)
    requires
        args@.len() > 0,
    ensures
        goes_to(texts(args@), home, r),
{
    if args.len() == 1 {
        match home {
            Some(dir) => CdTarget::Home(dir),
            None => CdTarget::Named("/".to_owned()),
        }
    } else {
        CdTarget::Named(args[1].to_owned())
    }
}

/// Chooses where `cd` goes. The home directory is looked up only where there is no argument.
pub fn run_cd(args: &[&str]) -> (r: CdTarget)
    requires
        args@.len() > 0,
    ensures
        cd_leads_to(texts(args@), r),
{
    let home: Option<PathBuf> = if args.len() == 1 {
        dirs::home_dir()
    } else {
        None
    };
    let r = cd_target(args, home);
    proof {
        assert(goes_to(texts(args@), home, r));
    }
    r
}

} // verus!
