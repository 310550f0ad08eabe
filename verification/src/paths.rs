//! Where the server keeps its files, after the desktop's base directory conventions. A path is a row
//! of bytes.
use crate::bytes::push_bytes;
use vstd::prelude::*;

verus! {

/// Whether a path starts at the root.
pub open spec fn is_absolute(path: Seq<u8>) -> bool {
    path.len() > 0 && path[0] == 0x2f
}

/// A relative path, seen from a directory.
pub open spec fn joined(base: Seq<u8>, rel: Seq<char>) -> Seq<u8> {
    if base.len() > 0 && base.last() != 0x2f {
        base + seq![0x2f] + vstd::utf8::encode_utf8(rel)
    } else {
        base + vstd::utf8::encode_utf8(rel)
    }
}

/// Whether the variable names a directory that counts: a relative path does not.
pub open spec fn names_a_base(var: Option<Vec<u8>>) -> bool {
    var matches Some(v) && is_absolute(v@)
}

/// The base directory that a variable names, or else the usual one below the home directory.
pub open spec fn base(var: Option<Vec<u8>>, home: Option<Vec<u8>>, usual: Seq<char>) -> Seq<u8> {
    if names_a_base(var) {
        var->0@
    } else {
        joined(home->0@, usual)
    }
}

/// Appends a relative path to a directory.
fn join(base: Vec<u8>, rel: &str) -> (r: Vec<u8>)
    ensures
        r@ == joined(base@, rel@),
{
    let mut r = base;
    let total: usize = r.len();
    if total > 0 && r[total - 1] != 0x2f {
        r.push(0x2f);
    }
    push_bytes(&mut r, rel.as_bytes());
    assert(r@ =~= joined(base@, rel@));
    r
}

/// The base directory that a variable names, or else the usual one below the home directory.
fn base_dir(var: Option<Vec<u8>>, home: Option<Vec<u8>>, usual: &str) -> (r: Vec<u8>)
    requires
        names_a_base(var) || home is Some,
    ensures
        r@ == base(var, home, usual@),
{
    if let Some(v) = var {
        if v.len() > 0 && v[0] == 0x2f {
            return v;
        }
    }
    match home {
        Some(h) => join(h, usual),
        None => Vec::new(),
    }
}

/// The directory of the server's credentials.
pub open spec fn config_path(var: Option<Vec<u8>>, home: Option<Vec<u8>>) -> Seq<u8> {
    joined(base(var, home, ".config"@), "tabscreen"@)
}

/// The directory of the desktop entries.
pub open spec fn applications_path(var: Option<Vec<u8>>, home: Option<Vec<u8>>) -> Seq<u8> {
    joined(base(var, home, ".local/share"@), "applications"@)
}

/// The directory of the server's credentials, from the values of `XDG_CONFIG_HOME` and `HOME`.
pub fn config_dir(xdg_config_home: Option<Vec<u8>>, home: Option<Vec<u8>>) -> (r: Vec<u8>)
    requires
        names_a_base(xdg_config_home) || home is Some,
    ensures
        r@ == config_path(xdg_config_home, home),
{
    join(base_dir(xdg_config_home, home, ".config"), "tabscreen")
}

/// The directory of the desktop entries, from the values of `XDG_DATA_HOME` and `HOME`.
pub fn applications_dir(xdg_data_home: Option<Vec<u8>>, home: Option<Vec<u8>>) -> (r: Vec<u8>)
    requires
        names_a_base(xdg_data_home) || home is Some,
    ensures
        r@ == applications_path(xdg_data_home, home),
{
    join(base_dir(xdg_data_home, home, ".local/share"), "applications")
}

/// A joined path lies below its directory, behind one slash, and a slash that is there already is not
/// doubled.
pub proof fn joined_paths_lie_below(base: Seq<u8>, rel: Seq<char>)
    ensures
        base.is_prefix_of(joined(base, rel)),
        vstd::utf8::encode_utf8(rel).is_suffix_of(joined(base, rel)),
        base.len() > 0 && base.last() != 0x2f ==> joined(base, rel)[base.len() as int] == 0x2f
            && joined(base, rel).len() == base.len() + 1 + vstd::utf8::encode_utf8(rel).len(),
        base.len() > 0 && base.last() == 0x2f ==> joined(base, rel).len() == base.len()
            + vstd::utf8::encode_utf8(rel).len(),
        base.len() == 0 ==> joined(base, rel) == vstd::utf8::encode_utf8(rel),
{
    let r = joined(base, rel);
    let tail = vstd::utf8::encode_utf8(rel);
    assert(base =~= r.subrange(0, base.len() as int));
    assert(tail =~= r.subrange(r.len() - tail.len(), r.len() as int));
    assert(base.len() == 0 ==> r =~= tail);
}

/// A variable that names an absolute path decides alone where the files are; whatever else it says is
/// as good as nothing, and then the home directory decides.
pub proof fn variables_count_when_absolute(
    var: Option<Vec<u8>>,
    home: Option<Vec<u8>>,
    other: Option<Vec<u8>>,
)
    ensures
        var matches Some(v) && v@.len() > 0 && v@[0] == 0x2f ==> {
            &&& config_path(var, home) == joined(var->0@, "tabscreen"@)
            &&& applications_path(var, home) == joined(var->0@, "applications"@)
            &&& config_path(var, home) == config_path(var, other)
            &&& applications_path(var, home) == applications_path(var, other)
        },
        !(var matches Some(v) && v@.len() > 0 && v@[0] == 0x2f) ==> {
            &&& config_path(var, home) == config_path(None, home)
            &&& applications_path(var, home) == applications_path(None, home)
        },
        home matches Some(h) ==> {
            &&& config_path(None, home) == joined(joined(h@, ".config"@), "tabscreen"@)
            &&& applications_path(None, home) == joined(
                joined(h@, ".local/share"@),
                "applications"@,
            )
        },
{
}

} // verus!
