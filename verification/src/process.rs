use vstd::prelude::*;
use crate::text::{has_prefix, starts_with, trim, trim_str};

verus! {

/// The only URLs that may be opened: `https://` ones.
pub open spec fn may_open_url(url: Seq<char>) -> bool {
    has_prefix(url, "https://"@)
}

/// Whether `url` may be opened in the browser; the error says why not.
pub fn check_open_url(url: &str) -> (res: Result<(), String>)
    ensures
        res is Ok <==> may_open_url(url@),
        res is Err ==> res->Err_0@ == "Only https:// URLs are allowed"@,
{
    if starts_with(url, "https://") {
        Ok(())
    } else {
        Err("Only https:// URLs are allowed".to_owned())
    }
}

/// The command line that `ps -o command=` printed is that of a shell started
/// the way this application starts commands (`sh -c ...`).
pub open spec fn is_spawned_shell(ps_output: Seq<char>) -> bool {
    has_prefix(trim(ps_output), "sh -c"@)
}

/// Whether a process with this `ps -o command=` output is one this
/// application started.
pub fn is_spawned_shell_line(ps_output: &str) -> (res: bool)
    ensures
        res == is_spawned_shell(ps_output@),
{
    let t = trim_str(ps_output);
    starts_with(t.as_str(), "sh -c")
}

/// The process groups of `pgids` to terminate as orphans of an earlier run:
/// those that are still `alive` and whose leader's command line (`ps_outputs`,
/// when `ps` could tell it) is a shell this application started.
pub open spec fn orphans_spec(pgids: Seq<i32>, alive: Seq<bool>, ps_outputs: Seq<Option<Seq<char>>>) -> Seq<i32>
    decreases pgids.len(),
{
    if pgids.len() == 0 || alive.len() == 0 || ps_outputs.len() == 0 {
        Seq::empty()
    } else {
        let prev = orphans_spec(pgids.drop_last(), alive.drop_last(), ps_outputs.drop_last());
        if alive.last() && ps_outputs.last() is Some && is_spawned_shell(ps_outputs.last()->Some_0) {
            prev.push(pgids.last())
        } else {
            prev
        }
    }
}

/// The process groups to terminate as orphans of an earlier run.
pub fn orphans_to_kill(pgids: &Vec<i32>, alive: &Vec<bool>, ps_outputs: &Vec<Option<String>>) -> (res: Vec<i32>)
    requires
        pgids@.len() == alive@.len() == ps_outputs@.len(),
    ensures
        res@ == orphans_spec(pgids@, alive@, ps_outputs@.map_values(|o: Option<String>| crate::types::opt_view(o))),
{
    let ghost outs = ps_outputs@.map_values(|o: Option<String>| crate::types::opt_view(o));
    let mut res: Vec<i32> = Vec::new();
    let mut i: usize = 0;
    while i < pgids.len()
        invariant
            pgids@.len() == alive@.len() == ps_outputs@.len() == outs.len(),
            outs == ps_outputs@.map_values(|o: Option<String>| crate::types::opt_view(o)),
            i <= pgids@.len(),
            res@ == orphans_spec(pgids@.take(i as int), alive@.take(i as int), outs.take(i as int)),
        decreases pgids@.len() - i,
    {
        proof {
            assert(pgids@.take(i + 1).drop_last() =~= pgids@.take(i as int));
            assert(alive@.take(i + 1).drop_last() =~= alive@.take(i as int));
            assert(outs.take(i + 1).drop_last() =~= outs.take(i as int));
        }
        let keep = alive[i] && match &ps_outputs[i] {
            Some(s) => is_spawned_shell_line(s.as_str()),
            None => false,
        };
        if keep {
            res.push(pgids[i]);
        }
        i += 1;
    }
    assert(pgids@.take(pgids@.len() as int) =~= pgids@);
    assert(alive@.take(alive@.len() as int) =~= alive@);
    assert(outs.take(outs.len() as int) =~= outs);
    res
}

/// Only process groups that are still alive and whose leader is a shell that
/// this application started are ever terminated as orphans.
pub proof fn lemma_orphans_are_spawned_shells(pgids: Seq<i32>, alive: Seq<bool>, ps_outputs: Seq<Option<Seq<char>>>)
    requires
        pgids.len() == alive.len() == ps_outputs.len(),
    ensures
        forall|x: i32|
            #[trigger] orphans_spec(pgids, alive, ps_outputs).contains(x) ==> exists|j: int|
                0 <= j < pgids.len() && pgids[j] == x && alive[j] && ps_outputs[j] is Some && is_spawned_shell(
                    ps_outputs[j]->Some_0,
                ),
    decreases pgids.len(),
{
    if pgids.len() > 0 {
        let p = pgids.drop_last();
        let a = alive.drop_last();
        let o = ps_outputs.drop_last();
        lemma_orphans_are_spawned_shells(p, a, o);
        let prev = orphans_spec(p, a, o);
        assert forall|x: i32| #[trigger] orphans_spec(pgids, alive, ps_outputs).contains(x) implies exists|j: int|
            0 <= j < pgids.len() && pgids[j] == x && alive[j] && ps_outputs[j] is Some && is_spawned_shell(
                ps_outputs[j]->Some_0,
            ) by {
            let t = orphans_spec(pgids, alive, ps_outputs);
            let i = choose|i: int| 0 <= i < t.len() && t[i] == x;
            if i < prev.len() && t[i] == prev[i] {
                assert(prev.contains(x));
                let j = choose|j: int|
                    0 <= j < p.len() && p[j] == x && a[j] && o[j] is Some && is_spawned_shell(o[j]->Some_0);
                assert(pgids[j] == x && alive[j] == a[j] && ps_outputs[j] == o[j]);
            } else {
                assert(pgids[pgids.len() - 1] == x);
            }
        }
    }
}

/// Every process group of the pid file that is still alive and whose leader
/// is a shell this application started is terminated as an orphan: none of
/// them is left running.
pub proof fn lemma_every_spawned_orphan_is_killed(pgids: Seq<i32>, alive: Seq<bool>, ps_outputs: Seq<Option<Seq<char>>>)
    requires
        pgids.len() == alive.len() == ps_outputs.len(),
    ensures
        forall|j: int|
            0 <= j < pgids.len() && alive[j] && ps_outputs[j] is Some && is_spawned_shell(ps_outputs[j]->Some_0)
                ==> orphans_spec(pgids, alive, ps_outputs).contains(#[trigger] pgids[j]),
    decreases pgids.len(),
{
    if pgids.len() > 0 {
        let p = pgids.drop_last();
        let a = alive.drop_last();
        let o = ps_outputs.drop_last();
        lemma_every_spawned_orphan_is_killed(p, a, o);
        let prev = orphans_spec(p, a, o);
        let t = orphans_spec(pgids, alive, ps_outputs);
        assert forall|j: int|
            0 <= j < pgids.len() && alive[j] && ps_outputs[j] is Some && is_spawned_shell(ps_outputs[j]->Some_0)
                implies t.contains(#[trigger] pgids[j]) by {
            if j < p.len() {
                assert(p[j] == pgids[j] && a[j] == alive[j] && o[j] == ps_outputs[j]);
                assert(prev.contains(p[j]));
                let q = choose|q: int| 0 <= q < prev.len() && prev[q] == p[j];
                assert(t[q] == prev[q]);
            } else {
                assert(t[t.len() - 1] == pgids[j]);
            }
        }
    }
}

} // verus!
