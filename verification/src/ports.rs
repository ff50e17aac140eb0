use vstd::prelude::*;
use crate::text::{
    chars_of, decimal, find_char, find_char_in, lemma_find_char_bound, parse_i32, parse_i32_in, parse_u16, parse_u16_in, push_decimal,
    push_str, string_of, trim, trim_bounds,
};

verus! {

/// The ports from `s` to `e`, both included.
pub open spec fn port_range(s: u16, e: u16) -> Seq<u16> {
    Seq::new((e - s + 1) as nat, |i: int| (s + i) as u16)
}

/// The message for an item that is not a port.
pub open spec fn invalid_port(t: Seq<char>) -> Seq<char> {
    "Invalid port: "@ + t
}

/// What one comma-separated item of a port list stands for: nothing when it
/// is blank, a range `start-end` (each side trimmed, start not above end), or a
/// single port.
pub open spec fn parse_port_item(item: Seq<char>) -> Result<Seq<u16>, Seq<char>> {
    let t = trim(item);
    let k = find_char(t, '-');
    if t.len() == 0 {
        Ok(Seq::empty())
    } else if k < t.len() {
        let a = trim(t.take(k));
        let b = trim(t.skip(k + 1));
        match parse_u16(a) {
            None => Err(invalid_port(a)),
            Some(s) => match parse_u16(b) {
                None => Err(invalid_port(b)),
                Some(e) => if s > e {
                    Err("Invalid range: "@ + decimal(s as nat) + seq!['-'] + decimal(e as nat))
                } else {
                    Ok(port_range(s, e))
                },
            },
        }
    } else {
        match parse_u16(t) {
            Some(p) => Ok(seq![p]),
            None => Err(invalid_port(t)),
        }
    }
}


/// The ports that a port list such as `3000`, `3000-3005`, `3000,3001,8080` or
/// `3000-3005,8080` names, in order; or the message for its first bad item.
pub open spec fn parse_ports_spec(s: Seq<char>) -> Result<Seq<u16>, Seq<char>>
    decreases s.len(),
{
    let k = find_char(s, ',');
    proof {
        lemma_find_char_bound(s, ',');
    }
    if k >= s.len() {
        parse_port_item(s)
    } else {
        match parse_port_item(s.take(k)) {
            Err(e) => Err(e),
            Ok(h) => match parse_ports_spec(s.skip(k + 1)) {
                Ok(r) => Ok(h + r),
                Err(e) => Err(e),
            },
        }
    }
}

/// Appends the ports from `s` to `e`, both included.
fn push_range(out: &mut Vec<u16>, s: u16, e: u16)
    requires
        s <= e,
    ensures
        final(out)@ == old(out)@ + port_range(s, e),
{
    let mut p: u32 = s as u32;
    while p <= e as u32
        invariant
            s <= p <= e as u32 + 1,
            s <= e,
            out@ == old(out)@ + port_range(s, (p - 1) as u16).take((p - s) as int),
        decreases e as u32 + 1 - p,
    {
        out.push(p as u16);
        p += 1;
        assert(out@ =~= old(out)@ + port_range(s, (p - 1) as u16).take((p - s) as int));
    }
    assert(port_range(s, (p - 1) as u16).take((p - s) as int) =~= port_range(s, e));
}

/// The ports of the item `v[from..to]`.
fn parse_item_in(v: &Vec<char>, from: usize, to: usize, out: &mut Vec<u16>) -> (res: Result<(), String>)
    requires
        from <= to <= v@.len(),
    ensures
        match parse_port_item(v@.subrange(from as int, to as int)) {
            Ok(ps) => res is Ok && final(out)@ == old(out)@ + ps,
            Err(e) => res is Err && res->Err_0@ == e,
        },
{
    let ghost item = v@.subrange(from as int, to as int);
    let (lo, hi) = trim_bounds(v, from, to);
    let ghost t = v@.subrange(lo as int, hi as int);
    assert(t == trim(item));
    if lo == hi {
        assert(out@ =~= old(out)@ + Seq::<u16>::empty());
        return Ok(());
    }
    let d = find_char_in(v, lo, hi, '-');
    if lo + d < hi {
        let (alo, ahi) = trim_bounds(v, lo, lo + d);
        let (blo, bhi) = trim_bounds(v, lo + d + 1, hi);
        proof {
            assert(t.take(d as int) =~= v@.subrange(lo as int, lo + d));
            assert(t.skip(d + 1) =~= v@.subrange(lo + d + 1, hi as int));
        }
        let s = match parse_u16_in(v, alo, ahi) {
            Some(s) => s,
            None => {
                let mut msg = String::new();
                push_str(&mut msg, "Invalid port: ");
                let a = string_of(v, alo, ahi);
                push_str(&mut msg, a.as_str());
                return Err(msg);
            },
        };
        let e = match parse_u16_in(v, blo, bhi) {
            Some(e) => e,
            None => {
                let mut msg = String::new();
                push_str(&mut msg, "Invalid port: ");
                let b = string_of(v, blo, bhi);
                push_str(&mut msg, b.as_str());
                return Err(msg);
            },
        };
        if s > e {
            let mut msg = String::new();
            push_str(&mut msg, "Invalid range: ");
            push_decimal(&mut msg, s as u64);
            push_str(&mut msg, "-");
            push_decimal(&mut msg, e as u64);
            proof {
                reveal_strlit("-");
                assert(msg@ =~= "Invalid range: "@ + decimal(s as nat) + seq!['-'] + decimal(e as nat));
            }
            return Err(msg);
        }
        push_range(out, s, e);
        Ok(())
    } else {
        match parse_u16_in(v, lo, hi) {
            Some(p) => {
                out.push(p);
                assert(out@ =~= old(out)@ + seq![p]);
                Ok(())
            },
            None => {
                let mut msg = String::new();
                push_str(&mut msg, "Invalid port: ");
                let a = string_of(v, lo, hi);
                push_str(&mut msg, a.as_str());
                Err(msg)
            },
        }
    }
}

/// The ports that a port list names, in order, or the message for its first
/// bad item.
pub fn parse_ports(spec: &str) -> (res: Result<Vec<u16>, String>)
    ensures
        match parse_ports_spec(spec@) {
            Ok(ps) => res is Ok && res->Ok_0@ == ps,
            Err(e) => res is Err && res->Err_0@ == e,
        },
{
    let v = chars_of(spec);
    let n = v.len();
    let mut ports: Vec<u16> = Vec::new();
    let mut pos: usize = 0;
    proof {
        assert(v@.subrange(0, n as int) =~= spec@);
        match parse_ports_spec(spec@) {
            Ok(r) => {
                assert(ports@ + r =~= r);
            },
            Err(e) => {},
        }
    }
    loop
        invariant
            v@ == spec@,
            n == v@.len(),
            pos <= n,
            parse_ports_spec(spec@) == match parse_ports_spec(v@.subrange(pos as int, n as int)) {
                Ok(r) => Ok(ports@ + r),
                Err(e) => Err::<Seq<u16>, Seq<char>>(e),
            },
        decreases n - pos,
    {
        let ghost rest = v@.subrange(pos as int, n as int);
        let k = find_char_in(&v, pos, n, ',');
        proof {
            lemma_find_char_bound(rest, ',');
        }
        let ghost old_ports = ports@;
        match parse_item_in(&v, pos, pos + k, &mut ports) {
            Err(e) => {
                proof {
                    assert(rest.take(k as int) =~= v@.subrange(pos as int, pos + k));
                }
                return Err(e);
            },
            Ok(()) => {},
        }
        proof {
            assert(rest.take(k as int) =~= v@.subrange(pos as int, pos + k));
        }
        if pos + k >= n {
            proof {
                assert(rest =~= v@.subrange(pos as int, pos + k));
                assert(v@.subrange(n as int, n as int) =~= Seq::<char>::empty());
            }
            return Ok(ports);
        }
        proof {
            assert(rest.skip(k + 1) =~= v@.subrange(pos + k + 1, n as int));
            assert(k < rest.len());
            let h = parse_port_item(rest.take(k as int))->Ok_0;
            assert(parse_port_item(rest.take(k as int)) is Ok);
            assert(ports@ == old_ports + h);
            match parse_ports_spec(rest.skip(k + 1)) {
                Ok(r) => {
                    assert(parse_ports_spec(rest) == Ok::<Seq<u16>, Seq<char>>(h + r));
                    assert(old_ports + (h + r) =~= ports@ + r);
                },
                Err(e) => {
                    assert(parse_ports_spec(rest) == Err::<Seq<u16>, Seq<char>>(e));
                },
            }
        }
        pos = pos + k + 1;
    }
}


/// The pids in the output of `lsof -t`: every line that, trimmed, is an `i32`.
pub open spec fn lsof_pids_spec(s: Seq<char>) -> Seq<i32>
    decreases s.len(),
{
    let k = find_char(s, '\n');
    proof {
        lemma_find_char_bound(s, '\n');
    }
    let head = match parse_i32(trim(s.take(k))) {
        Some(p) => seq![p],
        None => Seq::empty(),
    };
    if k >= s.len() {
        head
    } else {
        head + lsof_pids_spec(s.skip(k + 1))
    }
}

/// The pids of `cands` whose process group is worth looking up: positive, not
/// already `accepted`, each once, in order of first appearance.
pub open spec fn pids_to_check(cands: Seq<i32>, accepted: Seq<i32>) -> Seq<i32>
    decreases cands.len(),
{
    if cands.len() == 0 {
        Seq::empty()
    } else {
        let prev = pids_to_check(cands.drop_last(), accepted);
        let x = cands.last();
        if x > 0 && !accepted.contains(x) && !prev.contains(x) {
            prev.push(x)
        } else {
            prev
        }
    }
}

/// The pids of `pids` whose process group (`pgids`, found for each of them)
/// is one of the `known` groups of the processes this application started.
pub open spec fn termina_pids(pids: Seq<i32>, pgids: Seq<Option<i32>>, known: Seq<i32>) -> Seq<i32>
    decreases pids.len(),
{
    if pids.len() == 0 || pgids.len() == 0 {
        Seq::empty()
    } else {
        let prev = termina_pids(pids.drop_last(), pgids.drop_last(), known);
        match pgids.last() {
            Some(g) => if known.contains(g) {
                prev.push(pids.last())
            } else {
                prev
            },
            None => prev,
        }
    }
}

/// Whether `v` holds `x`.
pub fn vec_contains(v: &Vec<i32>, x: i32) -> (res: bool)
    ensures
        res == v@.contains(x),
{
    let mut i: usize = 0;
    while i < v.len()
        invariant
            i <= v@.len(),
            forall|j: int| 0 <= j < i ==> v@[j] != x,
        decreases v@.len() - i,
    {
        if v[i] == x {
            return true;
        }
        i += 1;
    }
    false
}

/// The pids in the output of `lsof -t`.
pub fn lsof_pids(output: &str) -> (res: Vec<i32>)
    ensures
        res@ == lsof_pids_spec(output@),
{
    let v = chars_of(output);
    let n = v.len();
    let mut pids: Vec<i32> = Vec::new();
    let mut pos: usize = 0;
    assert(v@.subrange(0, n as int) =~= output@);
    loop
        invariant
            v@ == output@,
            n == v@.len(),
            pos <= n,
            lsof_pids_spec(output@) == pids@ + lsof_pids_spec(v@.subrange(pos as int, n as int)),
        decreases n - pos,
    {
        let ghost rest = v@.subrange(pos as int, n as int);
        let k = find_char_in(&v, pos, n, '\n');
        proof {
            lemma_find_char_bound(rest, '\n');
            assert(rest.take(k as int) =~= v@.subrange(pos as int, pos + k));
        }
        let ghost before = pids@;
        let (lo, hi) = trim_bounds(&v, pos, pos + k);
        match parse_i32_in(&v, lo, hi) {
            Some(p) => {
                pids.push(p);
            },
            None => {},
        }
        let ghost head = match parse_i32(trim(rest.take(k as int))) {
            Some(p) => seq![p],
            None => Seq::<i32>::empty(),
        };
        assert(pids@ =~= before + head);
        if pos + k >= n {
            proof {
                assert(lsof_pids_spec(rest) == head);
                assert(v@.subrange(n as int, n as int) =~= Seq::<char>::empty());
                assert(lsof_pids_spec(Seq::<char>::empty()) =~= Seq::<i32>::empty());
                assert(pids@ + Seq::<i32>::empty() =~= pids@);
            }
            return pids;
        }
        proof {
            assert(rest.skip(k + 1) =~= v@.subrange(pos + k + 1, n as int));
            assert(lsof_pids_spec(rest) == head + lsof_pids_spec(rest.skip(k + 1)));
            assert(before + (head + lsof_pids_spec(rest.skip(k + 1))) =~= pids@ + lsof_pids_spec(rest.skip(k + 1)));
        }
        pos = pos + k + 1;
    }
}

/// The pids of `cands` whose process group is worth looking up.
pub fn select_pids_to_check(cands: &Vec<i32>, accepted: &Vec<i32>) -> (res: Vec<i32>)
    ensures
        res@ == pids_to_check(cands@, accepted@),
{
    let mut res: Vec<i32> = Vec::new();
    let mut i: usize = 0;
    while i < cands.len()
        invariant
            i <= cands@.len(),
            res@ == pids_to_check(cands@.take(i as int), accepted@),
        decreases cands@.len() - i,
    {
        let x = cands[i];
        proof {
            let t = cands@.take(i + 1);
            assert(t.drop_last() =~= cands@.take(i as int));
        }
        if x > 0 && !vec_contains(accepted, x) && !vec_contains(&res, x) {
            res.push(x);
        }
        i += 1;
    }
    assert(cands@.take(cands@.len() as int) =~= cands@);
    res
}

/// The pids of `pids` whose process group, `pgids[i]` for `pids[i]`, is one
/// of the `known` groups.
pub fn select_termina_pids(pids: &Vec<i32>, pgids: &Vec<Option<i32>>, known: &Vec<i32>) -> (res: Vec<i32>)
    requires
        pids@.len() == pgids@.len(),
    ensures
        res@ == termina_pids(pids@, pgids@, known@),
{
    let mut res: Vec<i32> = Vec::new();
    let mut i: usize = 0;
    while i < pids.len()
        invariant
            pids@.len() == pgids@.len(),
            i <= pids@.len(),
            res@ == termina_pids(pids@.take(i as int), pgids@.take(i as int), known@),
        decreases pids@.len() - i,
    {
        proof {
            assert(pids@.take(i + 1).drop_last() =~= pids@.take(i as int));
            assert(pgids@.take(i + 1).drop_last() =~= pgids@.take(i as int));
        }
        match pgids[i] {
            Some(g) => {
                if vec_contains(known, g) {
                    res.push(pids[i]);
                }
            },
            None => {},
        }
        i += 1;
    }
    assert(pids@.take(pids@.len() as int) =~= pids@);
    assert(pgids@.take(pgids@.len() as int) =~= pgids@);
    res
}

/// `nix::unistd::getpgid`: the process group of process `pid`, or `None` when
/// the call fails. The answer depends on the system's current processes and
/// is not stated.
#[verifier::external_body]
fn process_group_of(pid: i32) -> (res: Option<i32>) {
    match nix::unistd::getpgid(Some(nix::unistd::Pid::from_raw(pid))) {
        Ok(pg) => Some(pg.as_raw()),
        Err(_) => None,
    }
}

/// One port's turn of `kill_by_ports`: of the pids in `lsof_output`, those
/// not yet `accepted` whose process group is one of the `known` groups of the
/// processes this application started. They are returned and appended to
/// `accepted`. The process group of each candidate is what the system reports
/// at the time of the call; a pid whose group cannot be had is left out.
pub fn accept_port_pids(lsof_output: &str, known: &Vec<i32>, accepted: &mut Vec<i32>) -> (res: Vec<i32>)
    ensures
        exists|pgids: Seq<Option<i32>>|
            pgids.len() == pids_to_check(lsof_pids_spec(lsof_output@), old(accepted)@).len() && res@
                == #[trigger] termina_pids(pids_to_check(lsof_pids_spec(lsof_output@), old(accepted)@), pgids, known@),
        final(accepted)@ == old(accepted)@ + res@,
        res@.no_duplicates(),
        forall|i: int|
            0 <= i < res@.len() ==> #[trigger] res@[i] > 0 && !old(accepted)@.contains(res@[i])
                && pids_to_check(lsof_pids_spec(lsof_output@), old(accepted)@).contains(res@[i]),
{
    let cands = lsof_pids(lsof_output);
    let checks = select_pids_to_check(&cands, accepted);
    let mut pgids: Vec<Option<i32>> = Vec::new();
    let mut i: usize = 0;
    while i < checks.len()
        invariant
            i <= checks@.len(),
            pgids@.len() == i,
        decreases checks@.len() - i,
    {
        pgids.push(process_group_of(checks[i]));
        i += 1;
    }
    let new = select_termina_pids(&checks, &pgids, known);
    proof {
        lemma_pids_to_check(cands@, old(accepted)@);
        lemma_termina_pids_sub(checks@, pgids@, known@);
        assert(checks@ == pids_to_check(lsof_pids_spec(lsof_output@), old(accepted)@));
        assert(pgids@.len() == checks@.len());
        assert(new@ == termina_pids(checks@, pgids@, known@));
    }
    let mut j: usize = 0;
    while j < new.len()
        invariant
            j <= new@.len(),
            accepted@ == old(accepted)@ + new@.take(j as int),
        decreases new@.len() - j,
    {
        accepted.push(new[j]);
        j += 1;
        assert(accepted@ =~= old(accepted)@ + new@.take(j as int));
    }
    assert(new@.take(new@.len() as int) =~= new@);
    new
}

/// What `pids_to_check` keeps is positive, new and without duplicates.
proof fn lemma_pids_to_check(cands: Seq<i32>, accepted: Seq<i32>)
    ensures
        pids_to_check(cands, accepted).no_duplicates(),
        forall|i: int|
            0 <= i < pids_to_check(cands, accepted).len() ==> #[trigger] pids_to_check(cands, accepted)[i] > 0
                && !accepted.contains(pids_to_check(cands, accepted)[i]),
    decreases cands.len(),
{
    if cands.len() > 0 {
        lemma_pids_to_check(cands.drop_last(), accepted);
    }
}

/// What `termina_pids` keeps is a subsequence of `pids`, in order.
proof fn lemma_termina_pids_sub(pids: Seq<i32>, pgids: Seq<Option<i32>>, known: Seq<i32>)
    requires
        pids.len() == pgids.len(),
        pids.no_duplicates(),
    ensures
        termina_pids(pids, pgids, known).no_duplicates(),
        forall|i: int|
            0 <= i < termina_pids(pids, pgids, known).len() ==> pids.contains(
                #[trigger] termina_pids(pids, pgids, known)[i],
            ),
    decreases pids.len(),
{
    if pids.len() > 0 {
        let p = pids.drop_last();
        assert(p.no_duplicates());
        lemma_termina_pids_sub(p, pgids.drop_last(), known);
        let prev = termina_pids(p, pgids.drop_last(), known);
        assert forall|i: int| 0 <= i < prev.len() implies pids.contains(#[trigger] prev[i]) by {
            let q = choose|q: int| 0 <= q < p.len() && p[q] == prev[i];
            assert(pids[q] == prev[i]);
        }
        assert(!prev.contains(pids.last())) by {
            if prev.contains(pids.last()) {
                let i = choose|i: int| 0 <= i < prev.len() && prev[i] == pids.last();
                let q = choose|q: int| 0 <= q < p.len() && p[q] == prev[i];
                assert(pids[q] == pids[pids.len() - 1]);
            }
        }
        assert(pids.contains(pids.last())) by {
            assert(pids[pids.len() - 1] == pids.last());
        }
    }
}

/// `kill_by_ports` only ever selects a pid whose process group is one of the
/// known groups of the processes this application started.
pub proof fn lemma_selected_pids_are_known(pids: Seq<i32>, pgids: Seq<Option<i32>>, known: Seq<i32>)
    requires
        pids.len() == pgids.len(),
    ensures
        forall|x: i32|
            #[trigger] termina_pids(pids, pgids, known).contains(x) ==> exists|j: int|
                0 <= j < pids.len() && pids[j] == x && pgids[j] is Some && known.contains(pgids[j]->Some_0),
    decreases pids.len(),
{
    if pids.len() > 0 {
        let p = pids.drop_last();
        let g = pgids.drop_last();
        lemma_selected_pids_are_known(p, g, known);
        let prev = termina_pids(p, g, known);
        assert forall|x: i32| #[trigger] termina_pids(pids, pgids, known).contains(x) implies exists|j: int|
            0 <= j < pids.len() && pids[j] == x && pgids[j] is Some && known.contains(pgids[j]->Some_0) by {
            let t = termina_pids(pids, pgids, known);
            let i = choose|i: int| 0 <= i < t.len() && t[i] == x;
            if i < prev.len() && t[i] == prev[i] {
                assert(prev.contains(x));
                let j = choose|j: int| 0 <= j < p.len() && p[j] == x && g[j] is Some && known.contains(g[j]->Some_0);
                assert(pids[j] == x && pgids[j] == g[j]);
            } else {
                assert(x == pids.last());
                assert(pids[pids.len() - 1] == x);
            }
        }
    }
}

} // verus!
