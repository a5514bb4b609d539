//! The settings: where the managed files live, and what the directory of
//! links inside it is called.

use vstd::prelude::*;

verus! {

/// What a [`Config`] stands for.
pub struct ConfigView {
    pub managed_directory: Seq<char>,
    pub link_directory_name: Seq<char>,
}

/// The settings in force for one run.
#[derive(Debug)]
pub struct Config {
    pub managed_directory: String,
    pub link_directory_name: String,
}

impl View for Config {
    type V = ConfigView;

    open spec fn view(&self) -> ConfigView {
        ConfigView {
            managed_directory: self.managed_directory@,
            link_directory_name: self.link_directory_name@,
        }
    }
}

impl Clone for Config {
    fn clone(&self) -> (res: Self)
        ensures
            res@ == self@,
    {
        Config {
            managed_directory: self.managed_directory.clone(),
            link_directory_name: self.link_directory_name.clone(),
        }
    }
}

/// The name of the directory of links where none is set.
pub open spec fn default_link_directory_name() -> Seq<char> {
    "!link"@
}

impl Config {
    /// The settings in force: each one as the settings file gives it, and
    /// its default where the file leaves it out. The default of the
    /// managed directory depends on the user, so the caller names it.
    pub fn with_defaults(
        managed_directory: Option<String>,
        link_directory_name: Option<String>,
        default_managed_directory: String,
    ) -> (res: Config)
        ensures
            res@.managed_directory == match managed_directory {
                Some(directory) => directory@,
                None => default_managed_directory@,
            },
            res@.link_directory_name == match link_directory_name {
                Some(name) => name@,
                None => default_link_directory_name(),
            },
    {
        Config {
            managed_directory: match managed_directory {
                Some(directory) => directory,
                None => default_managed_directory,
            },
            link_directory_name: match link_directory_name {
                Some(name) => name,
                None => "!link".to_owned(),
            },
        }
    }
}

} // verus!
