//! The network sweep: which addresses to probe, in which order, and what
//! progress to report while the probes run.

use vstd::prelude::*;
use crate::text::{decimal, decimal_text, ipv4_text, ipv4_to_string};
use crate::unique::{
    extend_unique, extend_unique_addresses, holds_address, lemma_extend_unique_contains,
    lemma_extend_unique_keeps_prefix, lemma_extend_unique_no_duplicates, no_duplicates, texts,
};
use crate::subnet::{
    enumerate_subnet_ips, subnet_hosts, subnet_size, Subnet, LARGE_SUBNET_SIZE,
};

verus! {

broadcast use vstd::string::group_string_axioms;

/// Progress of a sweep, as the front end shows it.
#[derive(Clone, Debug)]
pub struct ScanProgress {
    pub percentage: u32,
    pub message: String,
}

/// The addresses a sweep probes, and whether a subnet was too large to
/// sweep.
#[derive(Clone, Debug)]
pub struct ScanPlan {
    pub targets: Vec<u32>,
    pub has_large_network: bool,
}

/// The addresses every sweep probes first, whatever the subnets:
/// 192.168.45.1 and 192.168.46.2.
pub open spec fn known_ip_list() -> Seq<u32> {
    seq![0xC0A8_2D01u32, 0xC0A8_2E02u32]
}

/// The known addresses, in order.
pub fn known_ips() -> (ips: Vec<u32>)
    ensures
        ips@ == known_ip_list(),
{
    let mut ips: Vec<u32> = Vec::new();
    ips.push(0xC0A8_2D01u32);
    ips.push(0xC0A8_2E02u32);
    assert(ips@ =~= known_ip_list());
    ips
}

/// The addresses that parsed, in order.
pub open spec fn parsed_addresses(s: Seq<Option<u32>>) -> Seq<u32>
    decreases s.len(),
{
    if s.len() == 0 {
        Seq::empty()
    } else {
        let before = parsed_addresses(s.drop_last());
        match s.last() {
            Some(a) => before.push(a),
            None => before,
        }
    }
}

/// The hosts of each subnet, subnet after subnet.
pub open spec fn swept_hosts(subnets: Seq<Subnet>) -> Seq<u32>
    decreases subnets.len(),
{
    if subnets.len() == 0 {
        Seq::empty()
    } else {
        swept_hosts(subnets.drop_last()) + subnet_hosts(subnets.last())
    }
}

/// Every address a sweep considers, in the order it considers them: the
/// known addresses, then the addresses already discovered, then the hosts of
/// the local subnets.
pub open spec fn scan_candidates(discovered: Seq<Option<u32>>, subnets: Seq<Subnet>) -> Seq<u32> {
    known_ip_list() + parsed_addresses(discovered) + swept_hosts(subnets)
}

/// The sweep's targets: each candidate once, at its first place.
pub open spec fn scan_targets(discovered: Seq<Option<u32>>, subnets: Seq<Subnet>) -> Seq<u32> {
    extend_unique(Seq::empty(), scan_candidates(discovered, subnets))
}

/// Some subnet holds `LARGE_SUBNET_SIZE` addresses or more.
pub open spec fn has_large_subnet(subnets: Seq<Subnet>) -> bool {
    exists|k: int| 0 <= k < subnets.len() && (#[trigger] subnets[k]).size() >= LARGE_SUBNET_SIZE
}

/// Extending in two steps is extending once with both lists.
pub proof fn lemma_extend_unique_concat<A>(acc: Seq<A>, a: Seq<A>, b: Seq<A>)
    ensures
        extend_unique(extend_unique(acc, a), b) == extend_unique(acc, a + b),
    decreases b.len(),
{
    if b.len() == 0 {
        assert(a + b =~= a);
    } else {
        lemma_extend_unique_concat(acc, a, b.drop_last());
        assert((a + b).drop_last() =~= a + b.drop_last());
        assert((a + b).last() == b.last());
    }
}

fn subnets_ok(subnets: &Vec<Subnet>) -> (ok: bool)
    ensures
        ok == forall|k: int| 0 <= k < subnets@.len() ==> 1 <= (#[trigger] subnets@[k]).prefix <= 32,
{
    let mut i: usize = 0;
    while i < subnets.len()
        invariant
            i <= subnets@.len(),
            forall|k: int| 0 <= k < i ==> 1 <= (#[trigger] subnets@[k]).prefix <= 32,
        decreases subnets@.len() - i,
    {
        if subnets[i].prefix < 1 || subnets[i].prefix > 32 {
            return false;
        }
        i = i + 1;
    }
    true
}

/// Plans a sweep: the known addresses first, then each discovered address
/// that parsed as IPv4 (`None` stands for one that did not), then the hosts
/// of every local subnet smaller than `LARGE_SUBNET_SIZE`, each address
/// once. A larger subnet is skipped and marked.
pub fn build_scan_targets(discovered: &Vec<Option<u32>>, subnets: &Vec<Subnet>) -> (plan: ScanPlan)
    requires
        forall|k: int| 0 <= k < subnets@.len() ==> 1 <= (#[trigger] subnets@[k]).prefix <= 32,
    ensures
        plan.targets@ == scan_targets(discovered@, subnets@),
        plan.has_large_network == has_large_subnet(subnets@),
        plan.has_large_network <==> exists|k: int|
            0 <= k < subnets@.len() && (#[trigger] subnets@[k]).size() >= LARGE_SUBNET_SIZE,
        no_duplicates(plan.targets@),
        plan.targets@.subrange(0, 2) == known_ip_list(),
        forall|k: int, x: u32|
            0 <= k < subnets@.len() && (#[trigger] subnets@[k]).size() < LARGE_SUBNET_SIZE
                && #[trigger] subnet_hosts(subnets@[k]).contains(x) ==> plan.targets@.contains(x),
        forall|i: int|
            0 <= i < discovered@.len() && (#[trigger] discovered@[i]) is Some
                ==> plan.targets@.contains(discovered@[i]->0),
        forall|x: u32|
            #[trigger] plan.targets@.contains(x) ==> known_ip_list().contains(x) || (exists|i: int|
                0 <= i < discovered@.len() && #[trigger] discovered@[i] == Some(x)) || (exists|
                k: int,
            |
                0 <= k < subnets@.len() && (#[trigger] subnets@[k]).size() < LARGE_SUBNET_SIZE
                    && subnet_hosts(subnets@[k]).contains(x)),
{
    let mut targets: Vec<u32> = Vec::new();
    let known = known_ips();
    extend_unique_addresses(&mut targets, &known);
    let ghost empty = Seq::<u32>::empty();
    let mut i: usize = 0;
    while i < discovered.len()
        invariant
            i <= discovered@.len(),
            targets@ == extend_unique(empty, known_ip_list() + parsed_addresses(discovered@.take(i as int))),
        decreases discovered@.len() - i,
    {
        proof {
            assert(discovered@.take(i + 1).drop_last() =~= discovered@.take(i as int));
        }
        if let Some(ip) = discovered[i] {
            proof {
                let before = known_ip_list() + parsed_addresses(discovered@.take(i as int));
                assert(known_ip_list() + parsed_addresses(discovered@.take(i + 1)) =~= before.push(ip));
                assert(before.push(ip).drop_last() =~= before);
            }
            if !holds_address(&targets, ip) {
                targets.push(ip);
            }
        } else {
            proof {
                assert(known_ip_list() + parsed_addresses(discovered@.take(i + 1)) =~= known_ip_list()
                    + parsed_addresses(discovered@.take(i as int)));
            }
        }
        i = i + 1;
    }
    proof {
        assert(discovered@.take(discovered@.len() as int) =~= discovered@);
    }
    let ghost front = known_ip_list() + parsed_addresses(discovered@);
    let mut has_large_network = false;
    let mut j: usize = 0;
    while j < subnets.len()
        invariant
            j <= subnets@.len(),
            forall|k: int| 0 <= k < subnets@.len() ==> 1 <= (#[trigger] subnets@[k]).prefix <= 32,
            targets@ == extend_unique(empty, front + swept_hosts(subnets@.take(j as int))),
            has_large_network == has_large_subnet(subnets@.take(j as int)),
        decreases subnets@.len() - j,
    {
        let net = subnets[j];
        proof {
            assert(subnets@.take(j + 1).drop_last() =~= subnets@.take(j as int));
            assert(subnets@.take(j + 1).last() == net);
            assert(net == subnets@[j as int]);
            lemma_extend_unique_concat(empty, front + swept_hosts(subnets@.take(j as int)), subnet_hosts(net));
            assert(front + swept_hosts(subnets@.take(j + 1)) =~= front + swept_hosts(
                subnets@.take(j as int),
            ) + subnet_hosts(net));
        }
        let size = match subnet_size(&net) {
            Some(s) => s,
            None => 0,
        };
        if size >= LARGE_SUBNET_SIZE {
            has_large_network = true;
            proof {
                assert(subnets@.take(j + 1)[j as int] == net);
                assert(subnet_hosts(net) =~= Seq::<u32>::empty());
                assert(extend_unique(targets@, Seq::<u32>::empty()) == targets@);
            }
        } else {
            let hosts = enumerate_subnet_ips(&net);
            extend_unique_addresses(&mut targets, &hosts);
            proof {
                if has_large_subnet(subnets@.take(j + 1)) {
                    let k = choose|k: int|
                        0 <= k < j + 1 && (#[trigger] subnets@.take(j + 1)[k]).size() >= LARGE_SUBNET_SIZE;
                    assert(subnets@.take(j as int)[k] == subnets@.take(j + 1)[k]);
                }
            }
        }
        proof {
            if has_large_subnet(subnets@.take(j as int)) {
                let k = choose|k: int|
                    0 <= k < j && (#[trigger] subnets@.take(j as int)[k]).size() >= LARGE_SUBNET_SIZE;
                assert(subnets@.take(j + 1)[k] == subnets@.take(j as int)[k]);
            }
        }
        j = j + 1;
    }
    proof {
        assert(subnets@.take(subnets@.len() as int) =~= subnets@);
        assert(front + swept_hosts(subnets@) =~= scan_candidates(discovered@, subnets@));
        lemma_scan_targets(discovered@, subnets@);
        lemma_scan_targets_members(discovered@, subnets@);
    }
    ScanPlan { targets, has_large_network }
}

/// A sweep's targets hold no address twice, start with the known addresses,
/// and are exactly the candidates: the known addresses, the discovered
/// addresses that parsed, and the hosts of the subnets that are swept.
pub proof fn lemma_scan_targets(discovered: Seq<Option<u32>>, subnets: Seq<Subnet>)
    ensures
        no_duplicates(scan_targets(discovered, subnets)),
        scan_targets(discovered, subnets).len() >= known_ip_list().len(),
        scan_targets(discovered, subnets).subrange(0, known_ip_list().len() as int)
            == known_ip_list(),
        forall|x: u32|
            #[trigger] scan_targets(discovered, subnets).contains(x) <==> scan_candidates(
                discovered,
                subnets,
            ).contains(x),
{
    let empty = Seq::<u32>::empty();
    let rest = parsed_addresses(discovered) + swept_hosts(subnets);
    let cands = scan_candidates(discovered, subnets);
    lemma_extend_unique_no_duplicates(empty, cands);
    assert forall|x: u32| #[trigger]
        scan_targets(discovered, subnets).contains(x) <==> cands.contains(x) by {
        lemma_extend_unique_contains(empty, cands, x);
    }
    assert(cands =~= known_ip_list() + rest);
    lemma_extend_unique_concat(empty, known_ip_list(), rest);
    let k = known_ip_list();
    assert(k.drop_last().drop_last() =~= empty);
    assert(k.drop_last() =~= seq![0xC0A8_2D01u32]);
    assert(extend_unique(empty, k.drop_last().drop_last()) == empty);
    assert(!empty.contains(k[0]));
    assert(extend_unique(empty, k.drop_last()) =~= seq![0xC0A8_2D01u32]);
    assert(!seq![0xC0A8_2D01u32].contains(k[1]));
    assert(extend_unique(empty, k) =~= k);
    lemma_extend_unique_keeps_prefix(k, rest);
}

/// An address is among the parsed addresses exactly when some entry parsed
/// to it.
pub proof fn lemma_parsed_addresses_contains(s: Seq<Option<u32>>, x: u32)
    ensures
        parsed_addresses(s).contains(x) <==> exists|i: int| 0 <= i < s.len() && #[trigger] s[i] == Some(x),
    decreases s.len(),
{
    if s.len() > 0 {
        let init = s.drop_last();
        lemma_parsed_addresses_contains(init, x);
        let before = parsed_addresses(init);
        if parsed_addresses(s).contains(x) {
            let t = choose|t: int| 0 <= t < parsed_addresses(s).len() && parsed_addresses(s)[t] == x;
            if s.last() is Some {
                if t < before.len() {
                    assert(before[t] == x);
                    let i = choose|i: int| 0 <= i < init.len() && #[trigger] init[i] == Some(x);
                    assert(s[i] == init[i]);
                } else {
                    assert(s[s.len() - 1] == Some(x));
                }
            } else {
                assert(before.contains(x));
                let i = choose|i: int| 0 <= i < init.len() && #[trigger] init[i] == Some(x);
                assert(s[i] == init[i]);
            }
        }
        if exists|i: int| 0 <= i < s.len() && #[trigger] s[i] == Some(x) {
            let i = choose|i: int| 0 <= i < s.len() && #[trigger] s[i] == Some(x);
            if i < s.len() - 1 {
                assert(init[i] == s[i]);
                assert(before.contains(x));
                let t = choose|t: int| 0 <= t < before.len() && before[t] == x;
                match s.last() {
                    Some(a) => {
                        assert(before.push(a)[t] == x);
                    },
                    None => {},
                }
            } else {
                assert(before.push(x)[before.len() as int] == x);
            }
        }
    }
}

/// An address is among the swept hosts exactly when it is a host of one of
/// the subnets.
pub proof fn lemma_swept_hosts_contains(subnets: Seq<Subnet>, x: u32)
    ensures
        swept_hosts(subnets).contains(x) <==> exists|k: int|
            0 <= k < subnets.len() && #[trigger] subnet_hosts(subnets[k]).contains(x),
    decreases subnets.len(),
{
    if subnets.len() > 0 {
        let init = subnets.drop_last();
        lemma_swept_hosts_contains(init, x);
        let a = swept_hosts(init);
        let b = subnet_hosts(subnets.last());
        if (a + b).contains(x) {
            let t = choose|t: int| 0 <= t < (a + b).len() && (a + b)[t] == x;
            if t < a.len() {
                assert(a[t] == x);
                let k = choose|k: int| 0 <= k < init.len() && #[trigger] subnet_hosts(init[k]).contains(x);
                assert(subnets[k] == init[k]);
            } else {
                assert(b[t - a.len()] == x);
                assert(subnet_hosts(subnets[subnets.len() - 1]).contains(x));
            }
        }
        if exists|k: int| 0 <= k < subnets.len() && #[trigger] subnet_hosts(subnets[k]).contains(x) {
            let k = choose|k: int| 0 <= k < subnets.len() && #[trigger] subnet_hosts(subnets[k]).contains(x);
            if k < subnets.len() - 1 {
                assert(init[k] == subnets[k]);
                assert(a.contains(x));
                let t = choose|t: int| 0 <= t < a.len() && a[t] == x;
                assert((a + b)[t] == x);
            } else {
                let t = choose|t: int| 0 <= t < b.len() && b[t] == x;
                assert((a + b)[a.len() + t] == x);
            }
        }
    }
}

/// The sweep takes every host of every subnet smaller than
/// `LARGE_SUBNET_SIZE`, whatever subnets come before it, every discovered
/// address that parsed, and the known addresses; and it takes nothing else.
pub proof fn lemma_scan_targets_members(discovered: Seq<Option<u32>>, subnets: Seq<Subnet>)
    ensures
        forall|k: int, x: u32|
            0 <= k < subnets.len() && (#[trigger] subnets[k]).size() < LARGE_SUBNET_SIZE
                && #[trigger] subnet_hosts(subnets[k]).contains(x) ==> scan_targets(
                discovered,
                subnets,
            ).contains(x),
        forall|i: int|
            0 <= i < discovered.len() && (#[trigger] discovered[i]) is Some ==> scan_targets(
                discovered,
                subnets,
            ).contains(discovered[i]->0),
        forall|x: u32|
            #[trigger] known_ip_list().contains(x) ==> scan_targets(discovered, subnets).contains(x),
        forall|x: u32|
            #[trigger] scan_targets(discovered, subnets).contains(x) ==> known_ip_list().contains(x)
                || (exists|i: int| 0 <= i < discovered.len() && #[trigger] discovered[i] == Some(x))
                || (exists|k: int|
                0 <= k < subnets.len() && (#[trigger] subnets[k]).size() < LARGE_SUBNET_SIZE
                    && subnet_hosts(subnets[k]).contains(x)),
{
    lemma_scan_targets(discovered, subnets);
    let k0 = known_ip_list();
    let p = parsed_addresses(discovered);
    let w = swept_hosts(subnets);
    let c = scan_candidates(discovered, subnets);
    assert forall|x: u32| #[trigger] c.contains(x) <==> (k0.contains(x) || p.contains(x) || w.contains(x)) by {
        if c.contains(x) {
            let t = choose|t: int| 0 <= t < c.len() && c[t] == x;
            if t < k0.len() {
                assert(k0[t] == x);
            } else if t < k0.len() + p.len() {
                assert(p[t - k0.len()] == x);
            } else {
                assert(w[t - k0.len() - p.len()] == x);
            }
        }
        if k0.contains(x) {
            let t = choose|t: int| 0 <= t < k0.len() && k0[t] == x;
            assert(c[t] == x);
        }
        if p.contains(x) {
            let t = choose|t: int| 0 <= t < p.len() && p[t] == x;
            assert(c[k0.len() + t] == x);
        }
        if w.contains(x) {
            let t = choose|t: int| 0 <= t < w.len() && w[t] == x;
            assert(c[k0.len() + p.len() + t] == x);
        }
    }
    assert forall|k: int, x: u32|
        0 <= k < subnets.len() && (#[trigger] subnets[k]).size() < LARGE_SUBNET_SIZE
            && #[trigger] subnet_hosts(subnets[k]).contains(x) implies scan_targets(
        discovered,
        subnets,
    ).contains(x) by {
        lemma_swept_hosts_contains(subnets, x);
        assert(c.contains(x));
    }
    assert forall|i: int|
        0 <= i < discovered.len() && (#[trigger] discovered[i]) is Some implies scan_targets(
        discovered,
        subnets,
    ).contains(discovered[i]->0) by {
        let x = discovered[i]->0;
        lemma_parsed_addresses_contains(discovered, x);
        assert(discovered[i] == Some(x));
        assert(c.contains(x));
    }
    assert forall|x: u32| #[trigger] known_ip_list().contains(x) implies scan_targets(
        discovered,
        subnets,
    ).contains(x) by {
        assert(c.contains(x));
    }
    assert forall|x: u32| #[trigger] scan_targets(discovered, subnets).contains(x) implies known_ip_list().contains(x)
        || (exists|i: int| 0 <= i < discovered.len() && #[trigger] discovered[i] == Some(x))
        || (exists|k: int|
        0 <= k < subnets.len() && (#[trigger] subnets[k]).size() < LARGE_SUBNET_SIZE
            && subnet_hosts(subnets[k]).contains(x)) by {
        assert(c.contains(x));
        lemma_parsed_addresses_contains(discovered, x);
        lemma_swept_hosts_contains(subnets, x);
        if w.contains(x) {
            let k = choose|k: int| 0 <= k < subnets.len() && #[trigger] subnet_hosts(subnets[k]).contains(x);
            assert(subnets[k].size() < LARGE_SUBNET_SIZE);
        }
    }
}

/// A sweep never finds itself without targets, since the known addresses are
/// always among them.
pub proof fn lemma_scan_targets_never_empty(discovered: Seq<Option<u32>>, subnets: Seq<Subnet>)
    ensures
        scan_targets(discovered, subnets).len() > 0,
{
    lemma_scan_targets(discovered, subnets);
}

/// The progress reported when a sweep has nothing to probe because every
/// subnet was too large; `None` when there is something to probe or no
/// subnet was too large.
pub fn scan_failure(plan: &ScanPlan) -> (progress: Option<ScanProgress>)
    ensures
        progress is Some <==> (plan.targets@.len() == 0 && plan.has_large_network),
        progress matches Some(p) ==> p.percentage == 100 && p.message@
            == "Error: network too large to scan"@,
{
    if plan.targets.len() == 0 && plan.has_large_network {
        Some(
            ScanProgress {
                percentage: 100,
                message: String::from_str("Error: network too large to scan"),
            },
        )
    } else {
        None
    }
}

/// How many finished probes lie between two progress reports: a hundredth of
/// the sweep, at least one.
pub open spec fn report_step(total: nat) -> nat {
    if total / 100 >= 1 {
        total / 100
    } else {
        1
    }
}

/// Progress is reported after every hundredth of the probes, and after the
/// last one.
pub open spec fn reports_progress(done: nat, total: nat) -> bool {
    total > 0 && (done % report_step(total) == 0 || done == total)
}

/// The percentage of the sweep done.
pub open spec fn percent_done(done: nat, total: nat) -> nat {
    (100 * done / total) as nat
}

/// The progress to report once `done` of `total` probes have finished, if
/// this is a point at which the sweep reports: the percentage done, rounded
/// down, and the message `Long Scan: <percentage>%`.
pub fn progress_report(done: usize, total: usize) -> (progress: Option<ScanProgress>)
    requires
        done <= total,
        100 * total <= usize::MAX,
    ensures
        progress is Some <==> reports_progress(done as nat, total as nat),
        progress matches Some(p) ==> p.percentage == percent_done(done as nat, total as nat)
            && p.message@ == "Long Scan: "@ + decimal(p.percentage as nat) + "%"@,
        progress matches Some(p) ==> p.percentage as int == (100 * done as int) / (total as int),
        progress matches Some(p) ==> p.percentage * total <= 100 * done < (p.percentage + 1) * total,
        progress is Some <==> (total > 0 && (done == total || done % (if total / 100 >= 1 {
            total / 100
        } else {
            1
        }) == 0)),
{
    if total == 0 {
        return None;
    }
    let step = if total / 100 > 1 { total / 100 } else { 1 };
    if done % step == 0 || done == total {
        let pct = (100 * done / total) as u32;
        assert((100 * done as int) / (total as int) <= 100) by (nonlinear_arith)
            requires done <= total, total > 0;
        proof {
            lemma_percent_is_floor(done as nat, total as nat);
        }
        let mut message = String::from_str("Long Scan: ");
        let digits = decimal_text(pct);
        message.append(digits.as_str());
        message.append("%");
        Some(ScanProgress { percentage: pct, message })
    } else {
        None
    }
}

/// The reported percentage is the share of probes done in hundredths,
/// rounded down: the largest whole percentage not above it.
pub proof fn lemma_percent_is_floor(done: nat, total: nat)
    requires
        total > 0,
    ensures
        percent_done(done, total) * total <= 100 * done,
        100 * done < (percent_done(done, total) + 1) * total,
{
    let p = (100 * done) / total;
    assert(p * total <= 100 * done < (p + 1) * total) by (nonlinear_arith)
        requires total > 0, p == (100 * done) / total;
}

/// The reported percentage never decreases as probes finish.
pub proof fn lemma_percent_monotone(d1: nat, d2: nat, total: nat)
    requires
        total > 0,
        d1 <= d2,
    ensures
        percent_done(d1, total) <= percent_done(d2, total),
{
    assert((100 * d1) / total <= (100 * d2) / total) by (nonlinear_arith)
        requires total > 0, d1 <= d2;
}

/// Reported percentages never exceed 100, and the last probe of a sweep is
/// always reported, at 100 percent.
pub proof fn lemma_progress_bounds(done: nat, total: nat)
    requires
        done <= total,
        total > 0,
    ensures
        percent_done(done, total) <= 100,
        reports_progress(total, total),
        percent_done(total, total) == 100,
{
    assert(100 * done / total <= 100) by (nonlinear_arith)
        requires done <= total, total > 0;
    assert(100 * total / total == 100) by (nonlinear_arith)
        requires total > 0;
}

/// The addresses found open, as text, in the order the probes reported them.
pub open spec fn open_address_texts(probes: Seq<(u32, bool)>) -> Seq<Seq<char>>
    decreases probes.len(),
{
    if probes.len() == 0 {
        Seq::empty()
    } else {
        let before = open_address_texts(probes.drop_last());
        if probes.last().1 {
            before.push(ipv4_text(probes.last().0))
        } else {
            before
        }
    }
}

/// The sweep's result: each probed address whose port was open, written in
/// dotted-quad notation.
pub fn open_addresses(probes: &Vec<(u32, bool)>) -> (found: Vec<String>)
    ensures
        texts(found@) == open_address_texts(probes@),
{
    let mut found: Vec<String> = Vec::new();
    let mut i: usize = 0;
    while i < probes.len()
        invariant
            i <= probes@.len(),
            texts(found@) == open_address_texts(probes@.take(i as int)),
        decreases probes@.len() - i,
    {
        proof {
            assert(probes@.take(i + 1).drop_last() =~= probes@.take(i as int));
        }
        let (ip, open) = probes[i];
        if open {
            let ghost before = found@;
            found.push(ipv4_to_string(ip));
            assert(texts(found@) =~= texts(before).push(ipv4_text(ip)));
        }
        i = i + 1;
    }
    proof {
        assert(probes@.take(probes@.len() as int) =~= probes@);
    }
    found
}

} // verus!
