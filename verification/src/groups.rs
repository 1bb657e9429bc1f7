//! Process-group ancestry and per-group memory sums.
//!
//! For every process with a parent, the walk follows `spawned_by` upward
//! until it reaches a process with a registered name (a group root) or a
//! pid the dump does not know; the walk is capped at the number of
//! processes, so a malformed dump with a parent cycle still terminates.
//! Every named process is a root of its own group and stands among its own
//! children; every process whose walk found a root stands among that
//! root's children.

use crate::bytes::{bytes_eq, views};
use crate::procs::ProcInfo;
use vstd::prelude::*;

verus! {

/// Index of the first process with this pid, or `procs.len()` if none.
pub open spec fn proc_ix(procs: Seq<ProcInfo>, pid: Seq<u8>) -> int
    decreases procs.len(),
{
    if procs.len() == 0 {
        0
    } else if procs[0].pid@ == pid {
        0
    } else {
        1 + proc_ix(procs.skip(1), pid)
    }
}

pub proof fn lemma_proc_ix(procs: Seq<ProcInfo>, pid: Seq<u8>)
    ensures
        0 <= proc_ix(procs, pid) <= procs.len(),
        proc_ix(procs, pid) < procs.len() ==> procs[proc_ix(procs, pid)].pid@ == pid,
        forall|j: int| 0 <= j < proc_ix(procs, pid) ==> (#[trigger] procs[j]).pid@ != pid,
    decreases procs.len(),
{
    if procs.len() == 0 {
    } else if procs[0].pid@ == pid {
    } else {
        lemma_proc_ix(procs.skip(1), pid);
        let i = proc_ix(procs, pid);
        assert forall|j: int| 0 <= j < i implies (#[trigger] procs[j]).pid@ != pid by {
            if j > 0 {
                assert(procs.skip(1)[j - 1] == procs[j]);
            }
        }
        if i < procs.len() {
            assert(procs.skip(1)[i - 1] == procs[i]);
        }
    }
}

pub proof fn lemma_proc_ix_is(procs: Seq<ProcInfo>, pid: Seq<u8>, j: int)
    requires
        0 <= j <= procs.len(),
        forall|k: int| 0 <= k < j ==> (#[trigger] procs[k]).pid@ != pid,
        j < procs.len() ==> procs[j].pid@ == pid,
    ensures
        proc_ix(procs, pid) == j,
    decreases procs.len(),
{
    if procs.len() == 0 {
    } else if procs[0].pid@ == pid {
        assert(j == 0);
    } else {
        assert(j >= 1);
        assert forall|k: int| 0 <= k < j - 1 implies (#[trigger] procs.skip(1)[k]).pid@ != pid by {
            assert(procs.skip(1)[k] == procs[k + 1]);
        }
        assert(j - 1 < procs.skip(1).len() ==> procs.skip(1)[j - 1] == procs[j]);
        lemma_proc_ix_is(procs.skip(1), pid, j - 1);
    }
}

/// Find a process by pid, as executable code.
pub fn find_proc<'a>(procs: &'a Vec<ProcInfo>, pid: &[u8]) -> (r: Option<&'a ProcInfo>)
    ensures
        match r {
            Some(p) => proc_ix(procs@, pid@) < procs@.len() && *p == procs@[proc_ix(
                procs@,
                pid@,
            )],
            None => proc_ix(procs@, pid@) == procs@.len(),
        },
{
    let mut i: usize = 0;
    while i < procs.len()
        invariant
            i <= procs@.len(),
            forall|j: int| 0 <= j < i ==> (#[trigger] procs@[j]).pid@ != pid@,
        decreases procs@.len() - i,
    {
        if bytes_eq(procs[i].pid.as_slice(), pid) {
            proof {
                lemma_proc_ix_is(procs@, pid@, i as int);
            }
            return Some(&procs[i]);
        }
        i = i + 1;
    }
    proof {
        lemma_proc_ix_is(procs@, pid@, procs@.len() as int);
    }
    None
}

/// The root a walk from candidate ancestor `start` reaches within `fuel`
/// steps: the first named or unknown pid on the `spawned_by` chain, `None`
/// when the chain ends unnamed and parentless or the fuel runs out.
pub open spec fn spec_root(procs: Seq<ProcInfo>, start: Seq<u8>, fuel: nat) -> Option<Seq<u8>>
    decreases fuel,
{
    if fuel == 0 {
        None
    } else {
        let i = proc_ix(procs, start);
        if i >= procs.len() {
            Some(start)
        } else if procs[i].name is Some {
            Some(start)
        } else {
            match procs[i].spawned_by {
                Some(next) => spec_root(procs, next@, (fuel - 1) as nat),
                None => None,
            }
        }
    }
}

/// The group root a process is attributed to: the walk from its parent,
/// capped at the number of processes.
pub open spec fn ancestry_root(procs: Seq<ProcInfo>, q: ProcInfo) -> Option<Seq<u8>> {
    match q.spawned_by {
        Some(r) => spec_root(procs, r@, procs.len() as nat),
        None => None,
    }
}

/// Walk the `spawned_by` chain from `start` to its root, as executable
/// code.
pub fn walk_to_root(procs: &Vec<ProcInfo>, start: &[u8]) -> (r: Option<Vec<u8>>)
    ensures
        match r {
            Some(v) => spec_root(procs@, start@, procs@.len() as nat) == Some(v@),
            None => spec_root(procs@, start@, procs@.len() as nat) is None,
        },
{
    let mut cur: Vec<u8> = vstd::slice::slice_to_vec(start);
    let mut fuel: usize = procs.len();
    while fuel > 0
        invariant
            fuel <= procs@.len(),
            spec_root(procs@, start@, procs@.len() as nat) == spec_root(
                procs@,
                cur@,
                fuel as nat,
            ),
        decreases fuel,
    {
        match find_proc(procs, cur.as_slice()) {
            None => {
                return Some(cur);
            },
            Some(p) => {
                if p.name.is_some() {
                    return Some(cur);
                }
                match &p.spawned_by {
                    Some(next) => {
                        cur = vstd::slice::slice_to_vec(next.as_slice());
                        fuel = fuel - 1;
                    },
                    None => {
                        return None;
                    },
                }
            },
        }
    }
    None
}

/// The view of a root table: each entry a root pid and its member pids.
pub open spec fn tbl(t: Seq<(Vec<u8>, Vec<Vec<u8>>)>) -> Seq<(Seq<u8>, Seq<Seq<u8>>)> {
    t.map_values(|e: (Vec<u8>, Vec<Vec<u8>>)| (e.0@, views(e.1@)))
}

/// Some entry of the table has this root, with this pid among its members.
pub open spec fn root_has(t: Seq<(Seq<u8>, Seq<Seq<u8>>)>, root: Seq<u8>, pid: Seq<u8>) -> bool {
    exists|k: int| 0 <= k < t.len() && (#[trigger] t[k]).0 == root && t[k].1.contains(pid)
}

/// Add `pid` under `root`, creating the entry if needed.  Every earlier
/// membership survives.
fn table_add(table: &mut Vec<(Vec<u8>, Vec<Vec<u8>>)>, root: &[u8], pid: &[u8])
    ensures
        root_has(tbl(final(table)@), root@, pid@),
        forall|rt: Seq<u8>, p: Seq<u8>|
            #[trigger] root_has(tbl(old(table)@), rt, p) ==> root_has(tbl(final(table)@), rt, p),
{
    let ghost t0 = tbl(table@);
    let mut k: usize = 0;
    while k < table.len()
        invariant
            k <= table@.len(),
            t0 == tbl(table@),
            t0 == tbl(old(table)@),
        decreases table@.len() - k,
    {
        if bytes_eq(table[k].0.as_slice(), root) {
            let ghost v0 = table@;
            let mut entry = table.remove(k);
            entry.1.push(vstd::slice::slice_to_vec(pid));
            let ghost ev = entry;
            table.insert(k, entry);
            proof {
                assert(table@.len() == v0.len());
                assert forall|j: int| 0 <= j < v0.len() implies table@[j] == (if j == k as int {
                    ev
                } else {
                    v0[j]
                }) by {
                    if j < k as int {
                        assert(table@[j] == v0.remove(k as int)[j]);
                    } else if j > k as int {
                        assert(table@[j] == v0.remove(k as int)[j - 1]);
                        assert(v0.remove(k as int)[j - 1] == v0[j]);
                    }
                }
                let t1 = tbl(table@);
                assert(t1.len() == t0.len());
                assert(ev.0@ == v0[k as int].0@);
                assert(views(ev.1@) =~= t0[k as int].1.push(pid@));
                assert forall|j: int| 0 <= j < t0.len() && j != k implies t1[j] == t0[j] by {}
                assert(t1[k as int].0 == t0[k as int].0);
                assert(t1[k as int].1 == t0[k as int].1.push(pid@));
                assert(t1[k as int].1[t0[k as int].1.len() as int] == pid@);
                assert(t1[k as int].1.contains(pid@));
                assert(t1[k as int].0 == root@);
                assert(root_has(t1, root@, pid@));
                assert forall|rt: Seq<u8>, p: Seq<u8>| #[trigger] root_has(t0, rt, p) implies
                    root_has(t1, rt, p) by {
                    let j = choose|j: int|
                        0 <= j < t0.len() && (#[trigger] t0[j]).0 == rt && t0[j].1.contains(p);
                    if j == k as int {
                        let m = choose|m: int| 0 <= m < t0[j].1.len() && t0[j].1[m] == p;
                        assert(t1[j].1[m] == p);
                        assert(t1[j].1.contains(p));
                    }
                    assert(t1[j].0 == rt && t1[j].1.contains(p));
                    assert(root_has(t1, rt, p));
                }
            }
            return ;
        }
        k = k + 1;
    }
    let mut members: Vec<Vec<u8>> = Vec::new();
    members.push(vstd::slice::slice_to_vec(pid));
    let ghost mv = members@;
    let ghost v0 = table@;
    table.push((vstd::slice::slice_to_vec(root), members));
    proof {
        let t1 = tbl(table@);
        let n = t0.len() as int;
        assert(table@.len() == v0.len() + 1);
        assert(t1.len() == t0.len() + 1);
        assert forall|j: int| 0 <= j < t0.len() implies t1[j] == t0[j] by {
            assert(table@[j] == v0[j]);
        }
        assert(table@[n] == table@.last());
        assert(t1[n].0 == root@);
        assert(views(mv) =~= seq![pid@]);
        assert(t1[n].1 == seq![pid@]);
        assert(t1[n].1[0] == pid@);
        assert(t1[n].1.contains(pid@));
        assert(root_has(t1, root@, pid@));
        assert forall|rt: Seq<u8>, p: Seq<u8>| #[trigger] root_has(t0, rt, p) implies root_has(
            t1,
            rt,
            p,
        ) by {
            let j = choose|j: int|
                0 <= j < t0.len() && (#[trigger] t0[j]).0 == rt && t0[j].1.contains(p);
            assert(t1[j].0 == rt && t1[j].1.contains(p));
            assert(root_has(t1, rt, p));
        }
    }
}

/// Build the root table: every named process is a root holding itself;
/// every process whose ancestry walk reaches a root is filed under it.
pub fn create_descendants_table(procs: &Vec<ProcInfo>) -> (r: Vec<(Vec<u8>, Vec<Vec<u8>>)>)
    ensures
        forall|i: int|
            0 <= i < procs@.len() && (#[trigger] procs@[i]).name is Some ==> root_has(
                tbl(r@),
                procs@[i].pid@,
                procs@[i].pid@,
            ),
        forall|i: int|
            0 <= i < procs@.len() ==> match ancestry_root(procs@, #[trigger] procs@[i]) {
                Some(root) => root_has(tbl(r@), root, procs@[i].pid@),
                None => true,
            },
{
    let mut table: Vec<(Vec<u8>, Vec<Vec<u8>>)> = Vec::new();
    let mut i: usize = 0;
    while i < procs.len()
        invariant
            i <= procs@.len(),
            forall|j: int|
                0 <= j < i && (#[trigger] procs@[j]).name is Some ==> root_has(
                    tbl(table@),
                    procs@[j].pid@,
                    procs@[j].pid@,
                ),
        decreases procs@.len() - i,
    {
        if procs[i].name.is_some() {
            let pid = vstd::slice::slice_to_vec(procs[i].pid.as_slice());
            table_add(&mut table, pid.as_slice(), pid.as_slice());
        }
        i = i + 1;
    }
    let mut q: usize = 0;
    while q < procs.len()
        invariant
            q <= procs@.len(),
            forall|j: int|
                0 <= j < procs@.len() && (#[trigger] procs@[j]).name is Some ==> root_has(
                    tbl(table@),
                    procs@[j].pid@,
                    procs@[j].pid@,
                ),
            forall|j: int|
                0 <= j < q ==> match ancestry_root(procs@, #[trigger] procs@[j]) {
                    Some(root) => root_has(tbl(table@), root, procs@[j].pid@),
                    None => true,
                },
        decreases procs@.len() - q,
    {
        match &procs[q].spawned_by {
            Some(parent) => {
                match walk_to_root(procs, parent.as_slice()) {
                    Some(root) => {
                        table_add(&mut table, root.as_slice(), procs[q].pid.as_slice());
                    },
                    None => {},
                }
            },
            None => {},
        }
        q = q + 1;
    }
    table
}


/// The memory a process contributes to its group's heap total.
pub open spec fn heap_term(p: ProcInfo) -> int {
    p.old_bin_vheap + p.bin_vheap + p.stack_heap + p.old_heap
}

/// Sum of `memory` over the members that resolve to a process.
pub open spec fn sum_mem(procs: Seq<ProcInfo>, members: Seq<Seq<u8>>) -> int
    decreases members.len(),
{
    if members.len() == 0 {
        0
    } else {
        sum_mem(procs, members.drop_last()) + {
            let i = proc_ix(procs, members.last());
            if i < procs.len() {
                procs[i].memory as int
            } else {
                0
            }
        }
    }
}

/// Sum of the heap metrics over the members that resolve to a process.
pub open spec fn sum_heap(procs: Seq<ProcInfo>, members: Seq<Seq<u8>>) -> int
    decreases members.len(),
{
    if members.len() == 0 {
        0
    } else {
        sum_heap(procs, members.drop_last()) + {
            let i = proc_ix(procs, members.last());
            if i < procs.len() {
                heap_term(procs[i])
            } else {
                0
            }
        }
    }
}

/// A sum clamped into `u128`, as the saturating accumulation computes it.
pub open spec fn clamp128(x: int) -> u128 {
    if x > u128::MAX {
        u128::MAX
    } else if x < 0 {
        0
    } else {
        x as u128
    }
}

/// One process group: its root, the root's name, its member pids, and the
/// summed metrics over the members (binary attribution is left open, so
/// that total stays zero).
#[derive(Debug)]
pub struct GroupInfo {
    pub total_heap_size: u128,
    pub total_binary_size: u128,
    pub total_memory_size: u128,
    pub pid: Vec<u8>,
    pub name: Vec<u8>,
    pub children: Vec<Vec<u8>>,
}

/// The name the group carries: its root process's registered name, or
/// empty when the root is unnamed or unknown.
pub open spec fn root_name(procs: Seq<ProcInfo>, root: Seq<u8>) -> Seq<u8> {
    let i = proc_ix(procs, root);
    if i < procs.len() {
        match procs[i].name {
            Some(n) => n@,
            None => Seq::empty(),
        }
    } else {
        Seq::empty()
    }
}

pub open spec fn group_matches(
    procs: Seq<ProcInfo>,
    entry: (Seq<u8>, Seq<Seq<u8>>),
    g: GroupInfo,
) -> bool {
    &&& g.pid@ == entry.0
    &&& views(g.children@) == entry.1
    &&& g.name@ == root_name(procs, entry.0)
    &&& g.total_memory_size == clamp128(sum_mem(procs, entry.1))
    &&& g.total_heap_size == clamp128(sum_heap(procs, entry.1))
    &&& g.total_binary_size == 0
}

/// Sum the members' metrics for every root-table entry.  Each group keeps
/// its entry's root and members; the sums saturate rather than wrap.
pub fn calculate_group_info(
    table: &Vec<(Vec<u8>, Vec<Vec<u8>>)>,
    procs: &Vec<ProcInfo>,
) -> (r: Vec<GroupInfo>)
    ensures
        r@.len() == tbl(table@).len(),
        forall|k: int|
            0 <= k < r@.len() ==> group_matches(procs@, tbl(table@)[k], #[trigger] r@[k]),
{
    let mut out: Vec<GroupInfo> = Vec::new();
    let mut k: usize = 0;
    while k < table.len()
        invariant
            k <= table@.len(),
            out@.len() == k,
            forall|j: int|
                0 <= j < k ==> group_matches(procs@, tbl(table@)[j], #[trigger] out@[j]),
        decreases table@.len() - k,
    {
        let ghost members = tbl(table@)[k as int].1;
        let entry_members = &table[k].1;
        proof {
            assert(views(entry_members@) == members);
        }
        let mut mem: u128 = 0;
        let mut heap: u128 = 0;
        let mut c: usize = 0;
        proof {
            assert(members.take(0) =~= Seq::<Seq<u8>>::empty());
        }
        while c < entry_members.len()
            invariant
                c <= entry_members@.len(),
                views(entry_members@) == members,
                members == tbl(table@)[k as int].1,
                0 <= k < table@.len(),
                mem == clamp128(sum_mem(procs@, members.take(c as int))),
                heap == clamp128(sum_heap(procs@, members.take(c as int))),
            decreases entry_members@.len() - c,
        {
            proof {
                assert(members.take(c + 1).last() == members[c as int]);
                assert(members.take(c + 1).drop_last() =~= members.take(c as int));
                assert(entry_members@[c as int]@ == members[c as int]);
                lemma_sum_mem_nonneg(procs@, members.take(c as int));
                lemma_sum_heap_nonneg(procs@, members.take(c as int));
            }
            let (mt, ht): (u128, u128) = match find_proc(procs, entry_members[c].as_slice()) {
                Some(p) => {
                    (
                        p.memory as u128,
                        p.old_bin_vheap as u128 + p.bin_vheap as u128 + p.stack_heap as u128
                            + p.old_heap as u128,
                    )
                },
                None => (0, 0),
            };
            if mem > u128::MAX - mt {
                mem = u128::MAX;
            } else {
                mem = mem + mt;
            }
            if heap > u128::MAX - ht {
                heap = u128::MAX;
            } else {
                heap = heap + ht;
            }
            c = c + 1;
        }
        proof {
            assert(members.take(members.len() as int) =~= members);
        }
        let name: Vec<u8> = match find_proc(procs, table[k].0.as_slice()) {
            Some(p) => match &p.name {
                Some(n) => vstd::slice::slice_to_vec(n.as_slice()),
                None => Vec::new(),
            },
            None => Vec::new(),
        };
        let mut children: Vec<Vec<u8>> = Vec::new();
        let mut c2: usize = 0;
        proof {
            assert(views(children@) =~= members.take(0));
        }
        while c2 < entry_members.len()
            invariant
                c2 <= entry_members@.len(),
                views(entry_members@) == members,
                0 <= k < table@.len(),
                views(children@) == members.take(c2 as int),
            decreases entry_members@.len() - c2,
        {
            let ch = vstd::slice::slice_to_vec(entry_members[c2].as_slice());
            proof {
                crate::bytes::lemma_views_push(children@, ch);
                assert(members.take(c2 + 1) =~= members.take(c2 as int).push(
                    members[c2 as int],
                ));
            }
            children.push(ch);
            c2 = c2 + 1;
        }
        proof {
            assert(members.take(members.len() as int) =~= members);
        }
        let g = GroupInfo {
            total_heap_size: heap,
            total_binary_size: 0,
            total_memory_size: mem,
            pid: vstd::slice::slice_to_vec(table[k].0.as_slice()),
            name,
            children,
        };
        proof {
            assert(group_matches(procs@, tbl(table@)[k as int], g));
        }
        out.push(g);
        k = k + 1;
    }
    out
}

pub proof fn lemma_sum_mem_nonneg(procs: Seq<ProcInfo>, members: Seq<Seq<u8>>)
    ensures
        sum_mem(procs, members) >= 0,
    decreases members.len(),
{
    if members.len() > 0 {
        lemma_sum_mem_nonneg(procs, members.drop_last());
    }
}

pub proof fn lemma_sum_heap_nonneg(procs: Seq<ProcInfo>, members: Seq<Seq<u8>>)
    ensures
        sum_heap(procs, members) >= 0,
    decreases members.len(),
{
    if members.len() > 0 {
        lemma_sum_heap_nonneg(procs, members.drop_last());
    }
}

/// Law: group membership carries over from the root table to the computed
/// groups.  Every named process is a group root with itself among the
/// group's children, and every process whose ancestry walk found a root
/// stands among that root's children.
pub proof fn lemma_groups_keep_roots(
    t: Seq<(Seq<u8>, Seq<Seq<u8>>)>,
    procs: Seq<ProcInfo>,
    gs: Seq<GroupInfo>,
    root: Seq<u8>,
    pid: Seq<u8>,
)
    requires
        gs.len() == t.len(),
        forall|k: int| 0 <= k < gs.len() ==> group_matches(procs, t[k], #[trigger] gs[k]),
        root_has(t, root, pid),
    ensures
        exists|k: int|
            0 <= k < gs.len() && (#[trigger] gs[k]).pid@ == root && views(
                gs[k].children@,
            ).contains(pid),
{
    let k = choose|k: int| 0 <= k < t.len() && (#[trigger] t[k]).0 == root && t[k].1.contains(pid);
    assert(gs[k].pid@ == root && views(gs[k].children@).contains(pid));
}


impl GroupInfo {
    /// The group as display text: memory, root pid, name, and child count,
    /// tab-separated.
    pub fn format(&self) -> (r: Vec<u8>)
        ensures
            r@ == crate::num::dec_seq(self.total_memory_size as int) + crate::bytes::ascii8(
                "\t"@,
            ) + self.pid@ + crate::bytes::ascii8("\t"@) + self.name@ + crate::bytes::ascii8(
                "\t"@,
            ) + crate::num::dec_seq(self.children@.len() as int),
    {
        proof {
            reveal_strlit("\t");
        }
        let mut v = crate::num::u128_to_dec(self.total_memory_size);
        crate::bytes::push_all(&mut v, crate::bytes::lit("\t").as_slice());
        crate::bytes::push_all(&mut v, self.pid.as_slice());
        crate::bytes::push_all(&mut v, crate::bytes::lit("\t").as_slice());
        crate::bytes::push_all(&mut v, self.name.as_slice());
        crate::bytes::push_all(&mut v, crate::bytes::lit("\t").as_slice());
        crate::bytes::push_all(
            &mut v,
            crate::num::u64_to_dec(self.children.len() as u64).as_slice(),
        );
        v
    }

    /// The table headers matching [`GroupInfo::ref_array`].
    pub fn headers() -> (r: Vec<Vec<u8>>)
        ensures
            r@.len() == 4,
    {
        proof {
            reveal_strlit("Total Memory Size");
            reveal_strlit("Pid");
            reveal_strlit("Name");
            reveal_strlit("Children Count");
        }
        let mut r: Vec<Vec<u8>> = Vec::new();
        r.push(crate::bytes::lit("Total Memory Size"));
        r.push(crate::bytes::lit("Pid"));
        r.push(crate::bytes::lit("Name"));
        r.push(crate::bytes::lit("Children Count"));
        r
    }

    /// The row a group contributes to the group table, in header order.
    pub fn ref_array(&self) -> (r: Vec<Vec<u8>>)
        ensures
            r@.len() == 4,
            r@[0]@ == crate::num::dec_seq(self.total_memory_size as int),
            r@[1]@ == self.pid@,
            r@[2]@ == self.name@,
            r@[3]@ == crate::num::dec_seq(self.children@.len() as int),
    {
        let mut r: Vec<Vec<u8>> = Vec::new();
        r.push(crate::num::u128_to_dec(self.total_memory_size));
        r.push(vstd::slice::slice_to_vec(self.pid.as_slice()));
        r.push(vstd::slice::slice_to_vec(self.name.as_slice()));
        r.push(crate::num::u64_to_dec(self.children.len() as u64));
        r
    }
}

} // verus!
