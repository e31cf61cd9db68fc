//! What to instrument: functions by name, and where to hook each.

use vstd::prelude::*;
use vstd::string::StringExecFns;

verus! {

/// Where a hook observes a function.
#[derive(Debug, Clone, Copy, PartialEq, Eq, Hash, Structural)]
pub enum HookPoint {
    /// Before the function runs, with its arguments.
    Pre,
    /// After the function has returned, with its arguments and results.
    Post,
}

/// A function to instrument, by the exact name that the name section gives
/// it, with the hook points to install. Listing a hook point twice is the same
/// as listing it once.
pub struct Tracee {
    pub name: String,
    pub hook_points: Vec<HookPoint>,
}

impl Tracee {
    /// Whether the tracee asks for a hook at `point`.
    pub open spec fn wants(&self, point: HookPoint) -> bool {
        self.hook_points@.contains(point)
    }
}

/// Whether `points` holds `point`.
pub fn has_hook_point(points: &Vec<HookPoint>, point: HookPoint) -> (r: bool)
    ensures
        r == points@.contains(point),
{
    let mut i: usize = 0;
    while i < points.len()
        invariant
            i <= points.len(),
            forall|k: int| 0 <= k < i ==> points@[k] != point,
        decreases points.len() - i,
    {
        if points[i] == point {
            return true;
        }
        i = i + 1;
    }
    false
}

/// The names of the allocator entry points that `allocator_tracees` lists.
pub open spec fn allocator_names() -> Seq<Seq<char>> {
    seq![
        "malloc"@,
        "dlmalloc"@,
        "free"@,
        "dlfree"@,
        "calloc"@,
        "dlcalloc"@,
        "realloc"@,
        "dlrealloc"@,
        "posix_memalign"@,
        "dlposix_memalign"@,
        "aligned_alloc"@,
        "dlaligned_alloc"@,
    ]
}

fn post_tracee(name: &str) -> (t: Tracee)
    ensures
        t.name@ == name@,
        t.hook_points@ == seq![HookPoint::Post],
        t.wants(HookPoint::Post),
        !t.wants(HookPoint::Pre),
{
    let mut hook_points: Vec<HookPoint> = Vec::new();
    hook_points.push(HookPoint::Post);
    assert(hook_points@[0] == HookPoint::Post);
    Tracee { name: String::from_str(name), hook_points }
}

/// The default watch-list: the C allocator entry points and their
/// `dl`-prefixed variants, each hooked after it returns.
pub fn allocator_tracees() -> (tracees: Vec<Tracee>)
    ensures
        tracees@.len() == allocator_names().len(),
        forall|i: int|
            0 <= i < tracees@.len() ==> (#[trigger] tracees@[i]).name@ == allocator_names()[i]
                && tracees@[i].hook_points@ == seq![HookPoint::Post] && tracees@[i].wants(
                HookPoint::Post,
            ) && !tracees@[i].wants(HookPoint::Pre),
{
    let mut tracees: Vec<Tracee> = Vec::new();
    tracees.push(post_tracee("malloc"));
    tracees.push(post_tracee("dlmalloc"));
    tracees.push(post_tracee("free"));
    tracees.push(post_tracee("dlfree"));
    tracees.push(post_tracee("calloc"));
    tracees.push(post_tracee("dlcalloc"));
    tracees.push(post_tracee("realloc"));
    tracees.push(post_tracee("dlrealloc"));
    tracees.push(post_tracee("posix_memalign"));
    tracees.push(post_tracee("dlposix_memalign"));
    tracees.push(post_tracee("aligned_alloc"));
    tracees.push(post_tracee("dlaligned_alloc"));
    tracees
}

} // verus!
