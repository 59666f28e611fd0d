//! The rate law.
//!
//! A rate is a period: a port of rate `N` carries one sample every `N` ticks of
//! the base clock. An actor keeps a local clock whose tick is the shorter of its
//! two periods. On the ticks of that clock it reads, on its ticks it writes, and
//! where the two periods differ one side is active on every tick and the other
//! once in a while. Between the two sides the actor holds the sample read last.
use vstd::arithmetic::div_mod::{lemma_fundamental_div_mod, lemma_fundamental_div_mod_converse};
use vstd::prelude::*;

verus! {

/// The rates of a producer and of a consumer fit together: both are periods of
/// at least one tick and one is a multiple of the other.
pub open spec fn agree(rp: nat, rc: nat) -> bool {
    rp > 0 && rc > 0 && (rc % rp == 0 || rp % rc == 0)
}

/// Local ticks from one read to the next, for an actor of input rate `ni` and
/// output rate `no`.
pub open spec fn read_period(ni: nat, no: nat) -> nat {
    if no > 0 && ni > no {
        ni / no
    } else {
        1
    }
}

/// Local ticks from one write to the next.
pub open spec fn write_period(ni: nat, no: nat) -> nat {
    if ni > 0 && no > ni {
        no / ni
    } else {
        1
    }
}

/// The actor reads its inputs on local tick `t`.
pub open spec fn reads_on(ni: nat, no: nat, t: nat) -> bool {
    ni > 0 && t % read_period(ni, no) == 0
}

/// The actor writes its outputs on local tick `t`.
pub open spec fn writes_on(ni: nat, no: nat, t: nat) -> bool {
    no > 0 && t % write_period(ni, no) == 0
}

/// `a / b`, rounded up.
pub open spec fn ceil_div(a: nat, b: nat) -> nat {
    ((a + b - 1) / (b as int)) as nat
}

/// The number of reads on the local ticks before `t`.
pub open spec fn reads_before(ni: nat, no: nat, t: nat) -> nat
    decreases t,
{
    if t == 0 {
        0
    } else {
        let earlier = reads_before(ni, no, (t - 1) as nat);
        if reads_on(ni, no, (t - 1) as nat) {
            earlier + 1
        } else {
            earlier
        }
    }
}

/// What an actor that holds the sample read last has written on the local ticks
/// before `t`, when `sent` is what arrives at its input. On a tick the read
/// comes before the write.
pub open spec fn relayed<T>(sent: Seq<T>, ni: nat, no: nat, t: nat) -> Seq<T>
    decreases t,
{
    if t == 0 {
        Seq::empty()
    } else {
        let earlier = relayed(sent, ni, no, (t - 1) as nat);
        if writes_on(ni, no, (t - 1) as nat) {
            earlier.push(sent[reads_before(ni, no, t) - 1])
        } else {
            earlier
        }
    }
}

/// What the consumer of rate `rc` receives when the producer of rate `rp` has
/// emitted `sent` and stopped: what was relayed until the read that found the
/// channel closed.
pub open spec fn delivered<T>(sent: Seq<T>, rp: nat, rc: nat) -> Seq<T> {
    relayed(sent, rp, rc, sent.len() * read_period(rp, rc))
}

/// How often the `j`-th sample that a producer of rate `rp` writes goes out to
/// a consumer of rate `rc`: a slower consumer gets the first sample of each
/// group of `rc / rp` and not the others, a faster one gets each sample
/// `rp / rc` times.
pub open spec fn copies(rp: nat, rc: nat, j: nat) -> nat {
    if rp <= rc {
        if j % (rc / rp) == 0 {
            1
        } else {
            0
        }
    } else {
        rp / rc
    }
}

/// What goes out when each of the samples `sent` is sent as often as `copies`
/// says.
pub open spec fn paced<T>(sent: Seq<T>, rp: nat, rc: nat) -> Seq<T>
    decreases sent.len(),
{
    if sent.len() == 0 {
        Seq::empty()
    } else {
        paced(sent.drop_last(), rp, rc) + Seq::new(
            copies(rp, rc, (sent.len() - 1) as nat),
            |i: int| sent.last(),
        )
    }
}

/// The state of a pacer, for contracts.
pub ghost struct Pace {
    /// The rate of the producer.
    pub rp: nat,
    /// The rate of the consumer.
    pub rc: nat,
    /// The number of samples that the producer has written.
    pub seen: nat,
}

/// Paces an output that feeds a consumer of another rate: it tells for each
/// sample that the producer writes how often it is to be sent.
pub struct Pacer {
    every: usize,
    repeat: usize,
    phase: usize,
    state: Ghost<Pace>,
}

impl View for Pacer {
    type V = Pace;

    closed spec fn view(&self) -> Pace {
        self.state@
    }
}

impl Pacer {
    #[verifier::type_invariant]
    spec fn well_formed(self) -> bool {
        let Pace { rp, rc, seen } = self.state@;
        &&& agree(rp, rc)
        &&& self.every >= 1
        &&& rp <= rc ==> self.every == rc / rp && self.repeat == 1
        &&& rp > rc ==> self.every == 1 && self.repeat == rp / rc
        &&& self.phase == seen % (self.every as nat)
    }

    /// The pacer between a producer of rate `rp` and a consumer of rate `rc`,
    /// before the first sample; none for two rates that do not fit together.
    pub fn new(rp: usize, rc: usize) -> (pacer: Option<Self>)
        ensures
            pacer is Some <==> agree(rp as nat, rc as nat),
            pacer matches Some(p) ==> p@ == (Pace { rp: rp as nat, rc: rc as nat, seen: 0 }),
    {
        if !rates_agree(rp, rc) {
            return None;
        }
        proof {
            lemma_periods(rp as nat, rc as nat);
        }
        let (every, repeat): (usize, usize) = if rp <= rc {
            (rc / rp, 1)
        } else {
            (1, rp / rc)
        };
        proof {
            lemma_fundamental_div_mod_converse(0, every as int, 0, 0);
        }
        Some(
            Pacer {
                every,
                repeat,
                phase: 0,
                state: Ghost(Pace { rp: rp as nat, rc: rc as nat, seen: 0 }),
            },
        )
    }

    /// How often the sample that the producer writes next is to be sent.
    pub fn next(&mut self) -> (times: usize)
        ensures
            times == copies(old(self)@.rp, old(self)@.rc, old(self)@.seen),
            final(self)@ == (Pace { seen: old(self)@.seen + 1, ..old(self)@ }),
    {
        proof {
            use_type_invariant(&*self);
        }
        let ghost before = self.state@;
        let times = if self.phase == 0 {
            self.repeat
        } else {
            0
        };
        let phase: usize = if self.phase + 1 >= self.every {
            0
        } else {
            self.phase + 1
        };
        proof {
            lemma_periods(before.rp, before.rc);
            let e = self.every as int;
            let q = before.seen as int / e;
            lemma_fundamental_div_mod(before.seen as int, e);
            assert((q + 1) * e == e * q + e) by (nonlinear_arith);
            if self.phase + 1 >= self.every {
                lemma_fundamental_div_mod_converse((before.seen + 1) as int, e, q + 1, 0);
            } else {
                lemma_fundamental_div_mod_converse((before.seen + 1) as int, e, q, (self.phase + 1) as int);
            }
        }
        *self = Pacer {
            every: self.every,
            repeat: self.repeat,
            phase,
            state: Ghost(Pace { seen: before.seen + 1, ..before }),
        };
        times
    }
}

/// Whether two rates fit together.
pub fn rates_agree(rp: usize, rc: usize) -> (ok: bool)
    ensures
        ok == agree(rp as nat, rc as nat),
{
    rp > 0 && rc > 0 && (rc % rp == 0 || rp % rc == 0)
}

proof fn lemma_ceil_step(t: nat, p: nat)
    requires
        p > 0,
    ensures
        ceil_div(t + 1, p) == ceil_div(t, p) + if t % p == 0 {
            1nat
        } else {
            0nat
        },
{
    let q = t as int / p as int;
    let m = t as int % p as int;
    lemma_fundamental_div_mod(t as int, p as int);
    assert((q + 1) * p == q * p + p) by (nonlinear_arith);
    if m == 0 {
        lemma_fundamental_div_mod_converse(t + p - 1, p as int, q, p - 1);
        lemma_fundamental_div_mod_converse((t + p) as int, p as int, q + 1, 0);
    } else {
        lemma_fundamental_div_mod_converse(t + p - 1, p as int, q + 1, m - 1);
        lemma_fundamental_div_mod_converse((t + p) as int, p as int, q + 1, m);
    }
}

/// Up to tick `t` an actor with inputs has read once for each started period.
pub proof fn lemma_reads_before(ni: nat, no: nat, t: nat)
    requires
        ni > 0,
        read_period(ni, no) > 0,
    ensures
        reads_before(ni, no, t) == ceil_div(t, read_period(ni, no)),
    decreases t,
{
    let p = read_period(ni, no);
    if t == 0 {
        lemma_fundamental_div_mod_converse(p - 1, p as int, 0, p - 1);
    } else {
        lemma_reads_before(ni, no, (t - 1) as nat);
        lemma_ceil_step((t - 1) as nat, p);
    }
}

proof fn lemma_periods(ni: nat, no: nat)
    requires
        agree(ni, no),
    ensures
        ni <= no ==> read_period(ni, no) == 1 && write_period(ni, no) == no / ni && no
            == write_period(ni, no) * ni,
        no <= ni ==> write_period(ni, no) == 1 && read_period(ni, no) == ni / no && ni
            == read_period(ni, no) * no,
        read_period(ni, no) > 0,
        write_period(ni, no) > 0,
        ni <= no ==> no % ni == 0,
        no <= ni ==> ni % no == 0,
{
    lemma_fundamental_div_mod(no as int, ni as int);
    lemma_fundamental_div_mod(ni as int, no as int);
    if ni == no {
        lemma_fundamental_div_mod_converse(ni as int, ni as int, 1, 0);
    } else if ni < no {
        lemma_fundamental_div_mod_converse(ni as int, no as int, 0, ni as int);
        assert(no as int % ni as int == 0);
        assert(ni * (no / ni) == (no / ni) * ni) by (nonlinear_arith);
        assert(no / ni > 0) by (nonlinear_arith)
            requires
                no == ni * (no / ni),
                no > 0,
                ni > 0,
        ;
    } else {
        lemma_fundamental_div_mod_converse(no as int, ni as int, 0, no as int);
        assert(ni as int % no as int == 0);
        assert(no * (ni / no) == (ni / no) * no) by (nonlinear_arith);
        assert(ni / no > 0) by (nonlinear_arith)
            requires
                ni == no * (ni / no),
                ni > 0,
                no > 0,
        ;
    }
}

proof fn lemma_relayed_slower<T>(sent: Seq<T>, ni: nat, no: nat, t: nat)
    requires
        agree(ni, no),
        ni <= no,
    ensures
        relayed(sent, ni, no, t).len() == ceil_div(t, no / ni),
        forall|j: int|
            0 <= j < relayed(sent, ni, no, t).len() ==> #[trigger] relayed(sent, ni, no, t)[j]
                == sent[j * (no / ni)],
    decreases t,
{
    lemma_periods(ni, no);
    let r = write_period(ni, no);
    if t == 0 {
        lemma_fundamental_div_mod_converse(r - 1, r as int, 0, r - 1);
    } else {
        let u = (t - 1) as nat;
        lemma_relayed_slower(sent, ni, no, u);
        lemma_ceil_step(u, r);
        lemma_reads_before(ni, no, t);
        assert(reads_before(ni, no, t) == t) by {
            lemma_fundamental_div_mod_converse(t as int, 1, t as int, 0);
        }
        if u % r == 0 {
            let q = u as int / r as int;
            lemma_fundamental_div_mod(u as int, r as int);
            assert(q * r == r * q) by (nonlinear_arith);
            lemma_fundamental_div_mod_converse(u + r - 1, r as int, q, r - 1);
            assert(relayed(sent, ni, no, u).len() == q);
            assert(relayed(sent, ni, no, t)[q] == sent[q * r]);
        }
    }
}

proof fn lemma_relayed_faster<T>(sent: Seq<T>, ni: nat, no: nat, t: nat)
    requires
        agree(ni, no),
        no <= ni,
    ensures
        relayed(sent, ni, no, t).len() == t,
        forall|j: int|
            0 <= j < t ==> #[trigger] relayed(sent, ni, no, t)[j] == sent[j / ((ni / no) as int)],
    decreases t,
{
    lemma_periods(ni, no);
    let r = read_period(ni, no);
    if t > 0 {
        let u = (t - 1) as nat;
        lemma_relayed_faster(sent, ni, no, u);
        lemma_reads_before(ni, no, t);
        assert(u as int % 1 == 0) by {
            lemma_fundamental_div_mod_converse(u as int, 1, u as int, 0);
        }
        let q = u as int / r as int;
        let m = u as int % r as int;
        lemma_fundamental_div_mod(u as int, r as int);
        assert((q + 1) * r == r * q + r) by (nonlinear_arith);
        lemma_fundamental_div_mod_converse(t + r - 1, r as int, q + 1, m);
        assert(reads_before(ni, no, t) - 1 == u as int / r as int);
    }
}

/// The rate law for a consumer that is slower than its producer, or as fast:
/// with `rc` a multiple of `rp`, the consumer receives every `(rc / rp)`-th
/// sample of the producer, starting with the first, and so one sample for each
/// started group of `rc / rp`.
pub proof fn lemma_decimation<T>(sent: Seq<T>, rp: nat, rc: nat)
    requires
        rp > 0,
        rc > 0,
        rc % rp == 0,
    ensures
        delivered(sent, rp, rc).len() == ceil_div(sent.len(), rc / rp),
        forall|j: int|
            0 <= j < delivered(sent, rp, rc).len() ==> #[trigger] delivered(sent, rp, rc)[j]
                == sent[j * (rc / rp)],
{
    if rc < rp {
        lemma_fundamental_div_mod_converse(rc as int, rp as int, 0, rc as int);
    }
    lemma_periods(rp, rc);
    assert(sent.len() * 1 == sent.len()) by (nonlinear_arith);
    lemma_relayed_slower(sent, rp, rc, sent.len());
}

/// Between equal rates nothing is dropped, repeated or reordered: the consumer
/// receives the samples of the producer as they were sent.
pub proof fn lemma_equal_rates<T>(sent: Seq<T>, rate: nat)
    requires
        rate > 0,
    ensures
        delivered(sent, rate, rate) == sent,
{
    lemma_fundamental_div_mod_converse(rate as int, rate as int, 1, 0);
    lemma_decimation(sent, rate, rate);
    lemma_fundamental_div_mod_converse(sent.len() as int, 1, sent.len() as int, 0);
    assert forall|j: int| 0 <= j < sent.len() implies delivered(sent, rate, rate)[j] == sent[j] by {
        assert(j * 1 == j);
    }
    assert(delivered(sent, rate, rate) =~= sent);
}

/// The rate law for a consumer that is faster than its producer, or as fast:
/// with `rp` a multiple of `rc`, each sample of the producer is held for
/// `rp / rc` ticks of the consumer, which receives it that many times in a row.
pub proof fn lemma_hold<T>(sent: Seq<T>, rp: nat, rc: nat)
    requires
        rp > 0,
        rc > 0,
        rp % rc == 0,
    ensures
        delivered(sent, rp, rc).len() == sent.len() * (rp / rc),
        forall|j: int|
            0 <= j < delivered(sent, rp, rc).len() ==> #[trigger] delivered(sent, rp, rc)[j]
                == sent[j / ((rp / rc) as int)],
{
    if rp < rc {
        lemma_fundamental_div_mod_converse(rp as int, rc as int, 0, rp as int);
    }
    lemma_periods(rp, rc);
    lemma_relayed_faster(sent, rp, rc, sent.len() * read_period(rp, rc));
}

proof fn lemma_below_ceiling(j: int, m: nat, r: nat)
    requires
        r > 0,
        0 <= j < ceil_div(m, r),
    ensures
        j * r < m,
{
    let c = (m + r - 1) / (r as int);
    lemma_fundamental_div_mod(m + r - 1, r as int);
    assert(j * r <= (c - 1) * r) by (nonlinear_arith)
        requires
            j <= c - 1,
            r > 0,
    ;
    assert((c - 1) * r == r * c - r) by (nonlinear_arith);
}

proof fn lemma_paced_slower<T>(sent: Seq<T>, rp: nat, rc: nat)
    requires
        agree(rp, rc),
        rp <= rc,
    ensures
        paced(sent, rp, rc).len() == ceil_div(sent.len(), rc / rp),
        forall|j: int|
            0 <= j < paced(sent, rp, rc).len() ==> #[trigger] paced(sent, rp, rc)[j] == sent[j * (rc
                / rp)],
    decreases sent.len(),
{
    lemma_periods(rp, rc);
    let r = rc / rp;
    if sent.len() == 0 {
        lemma_fundamental_div_mod_converse(r - 1, r as int, 0, r - 1);
    } else {
        let m = (sent.len() - 1) as nat;
        let rest = sent.drop_last();
        lemma_paced_slower(rest, rp, rc);
        lemma_ceil_step(m, r);
        let earlier = paced(rest, rp, rc);
        assert forall|j: int| 0 <= j < earlier.len() implies earlier[j] == sent[j * r] by {
            lemma_below_ceiling(j, m, r);
            assert(rest[j * r] == sent[j * r]);
        }
        if m % r == 0 {
            let q = m as int / r as int;
            lemma_fundamental_div_mod(m as int, r as int);
            assert(q * r == r * q) by (nonlinear_arith);
            lemma_fundamental_div_mod_converse(m + r - 1, r as int, q, r - 1);
            assert(earlier.len() == q);
            assert(paced(sent, rp, rc)[q] == sent[q * r]);
        }
    }
}

proof fn lemma_paced_faster<T>(sent: Seq<T>, rp: nat, rc: nat)
    requires
        agree(rp, rc),
        rc < rp,
    ensures
        paced(sent, rp, rc).len() == sent.len() * (rp / rc),
        forall|j: int|
            0 <= j < paced(sent, rp, rc).len() ==> #[trigger] paced(sent, rp, rc)[j] == sent[j / ((
            rp / rc) as int)],
    decreases sent.len(),
{
    lemma_periods(rp, rc);
    let r = rp / rc;
    if sent.len() > 0 {
        let m = (sent.len() - 1) as nat;
        let rest = sent.drop_last();
        lemma_paced_faster(rest, rp, rc);
        let earlier = paced(rest, rp, rc);
        assert(sent.len() * r == m * r + r) by (nonlinear_arith)
            requires
                sent.len() == m + 1,
        ;
        assert forall|j: int| 0 <= j < paced(sent, rp, rc).len() implies #[trigger] paced(
            sent,
            rp,
            rc,
        )[j] == sent[j / (r as int)] by {
            if j < earlier.len() {
                let q = j / (r as int);
                lemma_fundamental_div_mod(j, r as int);
                assert(q < m) by (nonlinear_arith)
                    requires
                        j == r * q + j % (r as int),
                        0 <= j % (r as int),
                        j < m * r,
                        r > 0,
                ;
                assert(rest[q] == sent[q]);
            } else {
                assert(m * r == r * m) by (nonlinear_arith);
                lemma_fundamental_div_mod_converse(j, r as int, m as int, j - m * r);
            }
        }
    }
}

/// An output that sends each sample as often as `copies` says delivers what
/// the rate law asks for.
pub proof fn lemma_paced_is_delivered<T>(sent: Seq<T>, rp: nat, rc: nat)
    requires
        agree(rp, rc),
    ensures
        paced(sent, rp, rc) == delivered(sent, rp, rc),
{
    lemma_periods(rp, rc);
    if rp <= rc {
        lemma_paced_slower(sent, rp, rc);
        lemma_decimation(sent, rp, rc);
    } else {
        lemma_paced_faster(sent, rp, rc);
        lemma_hold(sent, rp, rc);
    }
    assert(paced(sent, rp, rc) =~= delivered(sent, rp, rc));
}

/// The number of samples that reach a sink: when the producer stops after `n`
/// samples, the consumer has received one for each started period of its own
/// within the `n * rp` base ticks that the producer covered.
pub proof fn lemma_sample_count<T>(sent: Seq<T>, rp: nat, rc: nat)
    requires
        agree(rp, rc),
    ensures
        delivered(sent, rp, rc).len() == ceil_div(sent.len() * rp, rc),
        (sent.len() * rp) % rc == 0 ==> delivered(sent, rp, rc).len() == (sent.len() * rp) / rc,
{
    let n = sent.len();
    lemma_periods(rp, rc);
    if rp <= rc {
        lemma_decimation(sent, rp, rc);
        let r = rc / rp;
        let a = n + r - 1;
        let q = a as int / r as int;
        let m = a as int % r as int;
        lemma_fundamental_div_mod(a as int, r as int);
        assert(n * rp + rc - 1 == q * rc + (m * rp + rp - 1)) by (nonlinear_arith)
            requires
                n + r - 1 == r * q + m,
                rc == r * rp,
        ;
        assert(0 <= m * rp + rp - 1 < rc) by (nonlinear_arith)
            requires
                0 <= m < r,
                rc == r * rp,
                rp > 0,
        ;
        lemma_fundamental_div_mod_converse(n * rp + rc - 1, rc as int, q, m * rp + rp - 1);
    } else {
        lemma_hold(sent, rp, rc);
        let r = rp / rc;
        assert(n * rp + rc - 1 == (n * r) * rc + (rc - 1)) by (nonlinear_arith)
            requires
                rp == r * rc,
        ;
        lemma_fundamental_div_mod_converse(n * rp + rc - 1, rc as int, (n * r) as int, rc - 1);
    }
    if (n * rp) % rc == 0 {
        let k = (n * rp) as int / rc as int;
        lemma_fundamental_div_mod((n * rp) as int, rc as int);
        assert(k * rc == rc * k) by (nonlinear_arith);
        lemma_fundamental_div_mod_converse(n * rp + rc - 1, rc as int, k, rc - 1);
    }
}

} // verus!
