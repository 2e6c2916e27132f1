//! Paths, as text.
use vstd::prelude::*;
use vstd::string::*;

use crate::text::characters;

verus! {

/// A name under a directory.
pub open spec fn under(dir: Seq<char>, name: Seq<char>) -> Seq<char> {
    if dir.len() == 0 || dir.last() == '/' {
        dir + name
    } else {
        dir + "/"@ + name
    }
}

/// A name under a directory.
pub fn joined_path(dir: &str, name: &str) -> (path: String)
    ensures
        path@ == under(dir@, name@),
{
    let whole = characters(dir);
    let n: usize = whole.len();
    let mut path = dir.to_owned();
    if n > 0 && whole[n - 1] != '/' {
        path.append("/");
    }
    path.append(name);
    path
}

/// A name under a directory is the directory, a slash and the name, whether or
/// not the directory was written with a slash at its end.
pub proof fn a_name_stands_behind_its_directory_and_one_slash(dir: Seq<char>, name: Seq<char>)
    requires
        dir.len() > 0,
        dir.last() != '/',
    ensures
        under(dir, name) == dir + seq!['/'] + name,
        under(dir + seq!['/'], name) == under(dir, name),
        under(Seq::empty(), name) == name,
{
    reveal_strlit("/");
    assert("/"@ =~= seq!['/']);
    assert((dir + seq!['/']).last() == '/');
    assert(Seq::<char>::empty() + name =~= name);
}

} // verus!
