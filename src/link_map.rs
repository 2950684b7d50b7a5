//! The dynamic linker's list of loaded objects, as plain values, and the
//! rules for which of them are read and patched.

use vstd::prelude::*;
use crate::bytes::{bytes_eq, copy_range};

verus! {

/// The rendezvous state in which the list of loaded objects is complete.
pub const RT_CONSISTENT: u32 = 0;

/// The rendezvous state while an object is being added.
pub const RT_ADD: u32 = 1;

/// The rendezvous state while an object is being removed.
pub const RT_DELETE: u32 = 2;

/// One entry of the linker's list: the path of the backing file, possibly
/// empty, and the load bias.
#[derive(Debug)]
pub struct LinkEntry {
    pub path: Vec<u8>,
    pub load_bias: usize,
}

impl LinkEntry {
    pub open spec fn pair(self) -> (Seq<u8>, usize) {
        (self.path@, self.load_bias)
    }
}

pub open spec fn entry_pairs(es: Seq<LinkEntry>) -> Seq<(Seq<u8>, usize)> {
    es.map_values(|e: LinkEntry| e.pair())
}

pub open spec fn deny_view(deny: Seq<Vec<u8>>) -> Seq<Seq<u8>> {
    deny.map_values(|p: Vec<u8>| p@)
}

/// The name under which the kernel's vDSO appears in the list.
pub open spec fn vdso_name() -> Seq<u8> {
    seq![108u8, 105, 110, 117, 120, 45, 118, 100, 115, 111, 46, 115, 111, 46, 49]
}

/// Whether the object at `path` is read and patched: it has a backing file,
/// and its path is not on the deny list.
pub open spec fn eligible(path: Seq<u8>, deny: Seq<Seq<u8>>) -> bool {
    path.len() > 0 && !deny.contains(path)
}

/// The entries that are read and patched, in list order.
pub open spec fn eligible_entries(es: Seq<(Seq<u8>, usize)>, deny: Seq<Seq<u8>>) -> Seq<(Seq<u8>, usize)>
    decreases es.len(),
{
    if es.len() == 0 {
        Seq::empty()
    } else {
        let prev = eligible_entries(es.drop_last(), deny);
        if eligible(es.last().0, deny) {
            prev.push(es.last())
        } else {
            prev
        }
    }
}

/// The deny list that holds only the vDSO's name.
pub fn default_deny_list() -> (r: Vec<Vec<u8>>)
    ensures
        deny_view(r@) == seq![vdso_name()],
{
    let name: Vec<u8> = vec![108u8, 105, 110, 117, 120, 45, 118, 100, 115, 111, 46, 115, 111, 46, 49];
    assert(name@ =~= vdso_name());
    let r: Vec<Vec<u8>> = vec![name];
    assert(deny_view(r@) =~= seq![vdso_name()]);
    r
}

/// Whether the object at `path` is read and patched.
pub fn is_eligible(path: &[u8], deny: &Vec<Vec<u8>>) -> (r: bool)
    ensures
        r == eligible(path@, deny_view(deny@)),
{
    if path.len() == 0 {
        return false;
    }
    let mut i: usize = 0;
    while i < deny.len()
        invariant
            i <= deny.len(),
            forall|k: int| 0 <= k < i ==> deny@[k]@ != path@,
        decreases deny.len() - i,
    {
        if bytes_eq(deny[i].as_slice(), path) {
            assert(deny_view(deny@)[i as int] == path@);
            return false;
        }
        i += 1;
    }
    assert(!deny_view(deny@).contains(path@)) by {
        if deny_view(deny@).contains(path@) {
            let k = choose|k: int| 0 <= k < deny_view(deny@).len() && deny_view(deny@)[k] == path@;
            assert(deny@[k]@ == path@);
        }
    }
    true
}

/// The entries of `entries` that are read and patched, in list order.
pub fn eligible_objects(entries: &Vec<LinkEntry>, deny: &Vec<Vec<u8>>) -> (r: Vec<LinkEntry>)
    ensures
        entry_pairs(r@) == eligible_entries(entry_pairs(entries@), deny_view(deny@)),
{
    let mut out: Vec<LinkEntry> = Vec::new();
    let mut i: usize = 0;
    while i < entries.len()
        invariant
            i <= entries.len(),
            entry_pairs(out@) == eligible_entries(
                entry_pairs(entries@).take(i as int),
                deny_view(deny@),
            ),
        decreases entries.len() - i,
    {
        proof {
            assert(entry_pairs(entries@).take(i + 1).drop_last() =~= entry_pairs(entries@).take(
                i as int,
            ));
        }
        let e = &entries[i];
        if is_eligible(e.path.as_slice(), deny) {
            let path = copy_range(e.path.as_slice(), 0, e.path.len());
            let ghost before = out@;
            out.push(LinkEntry { path, load_bias: e.load_bias });
            proof {
                assert(path@ =~= e.path@);
                assert(entry_pairs(out@) =~= entry_pairs(before).push(e.pair()));
            }
        }
        i += 1;
    }
    proof {
        assert(entry_pairs(entries@).take(i as int) =~= entry_pairs(entries@));
    }
    out
}

/// No entry that is kept has an empty path or a denied one.
pub proof fn lemma_eligible_entries_only(es: Seq<(Seq<u8>, usize)>, deny: Seq<Seq<u8>>)
    ensures
        forall|k: int|
            0 <= k < eligible_entries(es, deny).len() ==> eligible(
                #[trigger] eligible_entries(es, deny)[k].0,
                deny,
            ),
    decreases es.len(),
{
    if es.len() > 0 {
        lemma_eligible_entries_only(es.drop_last(), deny);
        let prev = eligible_entries(es.drop_last(), deny);
        let cur = eligible_entries(es, deny);
        assert forall|k: int| 0 <= k < cur.len() implies eligible(#[trigger] cur[k].0, deny) by {
            if k < prev.len() {
                assert(cur[k] == prev[k]);
            }
        }
    }
}

/// Whether a patch pass runs in the rendezvous state `state`: only once the
/// list of loaded objects is complete.
pub fn hook_should_run(state: u32) -> (r: bool)
    ensures
        r == (state == RT_CONSISTENT),
{
    state == RT_CONSISTENT
}

} // verus!
