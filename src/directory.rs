use vstd::prelude::*;

verus! {

/// One expected configuration directory: a role, with its path relative to
/// the home directory.
#[derive(Debug, Clone, Copy, PartialEq, Eq)]
pub enum Directory<'a> {
    Alacritty(&'a str),
    Nvim(&'a str),
    Lua(&'a str),
    Autoload(&'a str),
}

impl<'a> Directory<'a> {
    /// The relative path that the descriptor carries, whatever its role.
    pub open spec fn rel_path(self) -> Seq<char> {
        match self {
            Directory::Alacritty(p) => p@,
            Directory::Nvim(p) => p@,
            Directory::Lua(p) => p@,
            Directory::Autoload(p) => p@,
        }
    }

    /// The path relative to the home directory.
    pub fn to_path(&self) -> (r: &'a str)
        ensures
            r@ == self.rel_path(),
    {
        match self {
            Directory::Alacritty(p) => p,
            Directory::Nvim(p) => p,
            Directory::Lua(p) => p,
            Directory::Autoload(p) => p,
        }
    }
}

/// The directories that a development environment needs, in the order in
/// which they are checked and created (a parent before its children).
pub fn default_directories() -> (r: Vec<Directory<'static>>)
    ensures
        r@.len() == 4,
        r@[0] == Directory::Alacritty(".config/alacritty"),
        r@[1] == Directory::Nvim(".config/nvim"),
        r@[2] == Directory::Lua(".config/nvim/lua"),
        r@[3] == Directory::Autoload(".config/nvim/autoload"),
{
    vec![
        Directory::Alacritty(".config/alacritty"),
        Directory::Nvim(".config/nvim"),
        Directory::Lua(".config/nvim/lua"),
        Directory::Autoload(".config/nvim/autoload"),
    ]
}

} // verus!
