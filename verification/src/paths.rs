//! The folders the program reads from and writes to, as text, all inside
//! the program's own folder.

use vstd::prelude::*;
use crate::text::{push_str, string_of, chars_of};

verus! {

/// `base` joined with `name` the way `Path::join` does on Unix: an absolute
/// `name` replaces `base`, and a `/` is put between the two unless `base` is
/// empty or already ends in one.
pub open spec fn join_spec(base: Seq<char>, name: Seq<char>) -> Seq<char> {
    if name.len() > 0 && name[0] == '/' {
        name
    } else if base.len() == 0 {
        name
    } else if base.last() == '/' {
        base + name
    } else {
        base + seq!['/'] + name
    }
}

/// `base` joined with `name`, as `join_spec` states it.
pub fn join_path(base: &str, name: &str) -> (res: String)
    ensures
        res@ == join_spec(base@, name@),
{
    let b = chars_of(base);
    let n = chars_of(name);
    if n.len() > 0 && n[0] == '/' {
        return string_of(name);
    }
    if b.len() == 0 {
        return string_of(name);
    }
    let mut out = string_of(base);
    if b[b.len() - 1] != '/' {
        out.push('/');
    }
    push_str(&mut out, name);
    out
}

/// The folder that holds the config files, inside the program's folder.
pub fn config_folder_path(app_dir: &str) -> (res: String)
    ensures
        res@ == join_spec(app_dir@, "config"@),
{
    join_path(app_dir, "config")
}

/// The folder that receives the export files.
pub fn output_folder_path(app_dir: &str) -> (res: String)
    ensures
        res@ == join_spec(app_dir@, "output"@),
{
    join_path(app_dir, "output")
}

/// The folder that holds the templates of the report.
pub fn templates_folder_path(app_dir: &str) -> (res: String)
    ensures
        res@ == join_spec(app_dir@, "templates"@),
{
    join_path(app_dir, "templates")
}

} // verus!
