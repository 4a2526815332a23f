//! Which directories the Landlock ruleset opens for the files it needs.
use vstd::prelude::*;
use crate::ctl::opt_text;

verus! {

/// What `Path::parent` gives for a path: the path without its last
/// component, `None` for a root or an empty path.
pub uninterp spec fn std_path_parent(p: Seq<char>) -> Option<Seq<char>>;

/// `std::path::Path::parent`, as text: claims the result is the parent
/// that `std_path_parent` names for the path, nothing more.
#[verifier::external_body]
fn path_parent(p: &str) -> (r: Option<String>)
    ensures
        opt_text(r) == std_path_parent(p@),
{
    std::path::Path::new(p).parent().map(|q| q.to_string_lossy().into_owned())
}

/// The directory a rule opens for a file: its parent, or `.` when the
/// parent is empty (a bare file name); none for a root.
pub open spec fn rule_dir_spec(parent: Option<Seq<char>>) -> Option<Seq<char>> {
    match parent {
        None => None,
        Some(p) => if p.len() == 0 {
            Some("."@)
        } else {
            Some(p)
        },
    }
}

pub fn rule_dir(parent: Option<String>) -> (r: Option<String>)
    ensures
        opt_text(r) == rule_dir_spec(opt_text(parent)),
{
    match parent {
        None => None,
        Some(p) => if p.as_str().is_empty() {
            Some(".".to_string())
        } else {
            Some(p)
        },
    }
}

pub fn path_parent_for_rule(path: &str) -> (r: Option<String>)
    ensures
        opt_text(r) == rule_dir_spec(std_path_parent(path@)),
{
    rule_dir(path_parent(path))
}

/// A control-socket peer is served only when it runs as this process's
/// effective user or as root.
pub fn peer_uid_ok(peer_uid: u32, own_euid: u32) -> (r: bool)
    ensures
        r == (peer_uid == own_euid || peer_uid == 0),
{
    peer_uid == own_euid || peer_uid == 0
}

/// Landlock file access rights.
pub const LANDLOCK_ACCESS_FS_WRITE_FILE: u64 = 2;
pub const LANDLOCK_ACCESS_FS_READ_FILE: u64 = 4;
pub const LANDLOCK_ACCESS_FS_READ_DIR: u64 = 8;
/// Reading files and listing directories.
pub const LANDLOCK_READ_ONLY: u64 = 12;
/// Reading, listing and writing files; also the rights the ruleset handles.
pub const LANDLOCK_READ_WRITE: u64 = 14;

/// One directory the ruleset opens, with the rights it grants there.
#[derive(Debug)]
pub struct LandlockRule {
    pub dir: String,
    pub access: u64,
}

pub open spec fn rule_view(r: LandlockRule) -> (Seq<char>, u64) {
    (r.dir@, r.access)
}

/// The static root read-only, then the directories of the rules file
/// and of the control socket read-write (each where it has one).
pub open spec fn landlock_plan(static_root: Seq<char>, rules_path: Seq<char>, control_socket: Seq<char>) -> Seq<
    (Seq<char>, u64),
> {
    let first = seq![(static_root, LANDLOCK_READ_ONLY)];
    let with_rules = match rule_dir_spec(std_path_parent(rules_path)) {
        Some(d) => first.push((d, LANDLOCK_READ_WRITE)),
        None => first,
    };
    match rule_dir_spec(std_path_parent(control_socket)) {
        Some(d) => with_rules.push((d, LANDLOCK_READ_WRITE)),
        None => with_rules,
    }
}

/// The rules the Landlock ruleset is given, in order.
pub fn landlock_rules(static_root: &str, rules_path: &str, control_socket: &str) -> (r: Vec<LandlockRule>)
    ensures
        r@.map_values(|x: LandlockRule| rule_view(x)) == landlock_plan(static_root@, rules_path@, control_socket@),
{
    let mut v: Vec<LandlockRule> = Vec::new();
    v.push(LandlockRule { dir: static_root.to_owned(), access: LANDLOCK_READ_ONLY });
    let ghost first = v@.map_values(|x: LandlockRule| rule_view(x));
    assert(first =~= seq![(static_root@, LANDLOCK_READ_ONLY)]);
    match path_parent_for_rule(rules_path) {
        Some(d) => v.push(LandlockRule { dir: d, access: LANDLOCK_READ_WRITE }),
        None => {},
    }
    let ghost mid = v@.map_values(|x: LandlockRule| rule_view(x));
    assert(mid =~= match rule_dir_spec(std_path_parent(rules_path@)) {
        Some(d) => first.push((d, LANDLOCK_READ_WRITE)),
        None => first,
    });
    match path_parent_for_rule(control_socket) {
        Some(d) => v.push(LandlockRule { dir: d, access: LANDLOCK_READ_WRITE }),
        None => {},
    }
    assert(v@.map_values(|x: LandlockRule| rule_view(x)) =~= landlock_plan(static_root@, rules_path@, control_socket@));
    v
}

} // verus!
