//! How large the data volume must be for a cluster of a given shape.

use vstd::prelude::*;
use crate::text::{self, dec_u64, join3};

verus! {

/// Bytes stored per node.
pub const PER_NODE_BYTES: u64 = 10_240;

/// Bytes stored per pod.
pub const PER_POD_BYTES: u64 = 8_192;

/// Pods per node when nothing is said.
pub const DEFAULT_PODS_PER_NODE: u64 = 30;

/// What does not grow with the cluster.
pub const FIXED_CLUSTER_BYTES: u64 = 33_554_432;

/// Rolling window of events, per node.
pub const EVENT_WINDOW_BYTES_PER_NODE: u64 = 65_536;

/// History held between compactions, in percent of the live data.
pub const HISTORY_FRACTION_PCT: u64 = 30;

/// Size of the file in percent of the live pages.
pub const COW_OVERHEAD_PCT: u64 = 160;

/// Average entry of the replicated log.
pub const AVG_LOG_ENTRY_BYTES: u64 = 2_048;

/// The mark that the peak must stay below, in percent of the volume.
pub const HIGH_WATER_PCT: u64 = 80;

/// The smallest volume that is worth provisioning: 256 MiB.
pub const PROVISION_FLOOR: u64 = 268_435_456;

/// The shape of a cluster and the settings of its store.
#[derive(Debug, Clone, Copy, PartialEq, Eq, Structural)]
pub struct ClusterShape {
    pub nodes: u64,
    pub pods_per_node: u64,
    /// Log entries between snapshots.
    pub snapshot_count: u64,
    /// Retained snapshots, each a full copy.
    pub max_snapshots: u64,
    /// Retained safety backups, each a full copy.
    pub upgrade_backup_retain: u64,
}

impl Default for ClusterShape {
    fn default() -> (r: ClusterShape)
        ensures
            r == (ClusterShape {
                nodes: 1,
                pods_per_node: DEFAULT_PODS_PER_NODE,
                snapshot_count: 5000,
                max_snapshots: 1,
                upgrade_backup_retain: 2,
            }),
    {
        ClusterShape {
            nodes: 1,
            pods_per_node: DEFAULT_PODS_PER_NODE,
            snapshot_count: 5000,
            max_snapshots: 1,
            upgrade_backup_retain: 2,
        }
    }
}

/// An estimate, and the terms that it is made of.
#[derive(Debug, Clone, Copy, PartialEq, Eq, Structural)]
pub struct Estimate {
    pub live_bytes: u64,
    pub history_bytes: u64,
    pub db_bytes: u64,
    pub snapshot_bytes: u64,
    pub log_bytes: u64,
    pub backup_bytes: u64,
    /// With one backup.
    pub working_set_bytes: u64,
    /// With every retained backup.
    pub peak_bytes: u64,
    pub recommended_volume_bytes: u64,
    pub provision_bytes: u64,
}

/// A number cut to 64 bits at the top.
pub open spec fn capped(n: int) -> u64 {
    if n > u64::MAX {
        u64::MAX
    } else {
        n as u64
    }
}

/// At least one.
pub open spec fn at_least_one(n: u64) -> u64 {
    if n == 0 {
        1
    } else {
        n
    }
}

/// The live data of a shape, not cut at the top as a sum.
pub open spec fn live(shape: ClusterShape) -> int {
    let nodes = at_least_one(shape.nodes);
    let pods = capped(nodes * shape.pods_per_node);
    FIXED_CLUSTER_BYTES + capped(nodes * PER_NODE_BYTES) + capped(pods * PER_POD_BYTES) + capped(
        nodes * EVENT_WINDOW_BYTES_PER_NODE,
    )
}

/// The history of some live data.
pub open spec fn history(live: u64) -> u64 {
    capped(live * HISTORY_FRACTION_PCT) / 100
}

/// Live data and history.
pub open spec fn logical(live: u64) -> u64 {
    capped(live + history(live))
}

/// The file of some live data.
pub open spec fn db(live: u64) -> u64 {
    capped(logical(live) * COW_OVERHEAD_PCT) / 100
}

/// What is there besides backups.
pub open spec fn base(shape: ClusterShape, live: u64) -> u64 {
    capped(
        capped(db(live) + capped(logical(live) * at_least_one(shape.max_snapshots))) + capped(
            shape.snapshot_count * AVG_LOG_ENTRY_BYTES,
        ),
    )
}

/// Everything that is there at most.
pub open spec fn peak(shape: ClusterShape, live: u64) -> u64 {
    capped(base(shape, live) + capped(db(live) * shape.upgrade_backup_retain))
}

/// The volume that keeps the peak below the mark.
pub open spec fn recommended(shape: ClusterShape, live: u64) -> u64 {
    capped(peak(shape, live) * 100) / HIGH_WATER_PCT
}

/// The estimate for a shape.
pub open spec fn estimated(shape: ClusterShape) -> Estimate {
    let l = live(shape) as u64;
    Estimate {
        live_bytes: l,
        history_bytes: history(l),
        db_bytes: db(l),
        snapshot_bytes: capped(logical(l) * at_least_one(shape.max_snapshots)),
        log_bytes: capped(shape.snapshot_count * AVG_LOG_ENTRY_BYTES),
        backup_bytes: db(l),
        working_set_bytes: capped(base(shape, l) + db(l)),
        peak_bytes: peak(shape, l),
        recommended_volume_bytes: recommended(shape, l),
        provision_bytes: doubled_to(PROVISION_FLOOR, recommended(shape, l)),
    }
}

/// A size doubled until it reaches another or can be doubled no more.
pub open spec fn doubled_to(v: u64, bytes: u64) -> u64
    decreases u64::MAX - v,
{
    if v >= bytes || v == 0 || v * 2 > u64::MAX {
        v
    } else {
        doubled_to((v * 2) as u64, bytes)
    }
}

/// Multiplication, cut at the top.
fn sat_mul(a: u64, b: u64) -> (r: u64)
    ensures
        r == capped(a * b),
{
    match a.checked_mul(b) {
        Some(p) => p,
        None => u64::MAX,
    }
}

/// Addition, cut at the top.
fn sat_add(a: u64, b: u64) -> (r: u64)
    ensures
        r == capped(a + b),
{
    match a.checked_add(b) {
        Some(s) => s,
        None => u64::MAX,
    }
}

/// Estimate the volume that a cluster needs.
pub fn estimate(shape: ClusterShape) -> (r: Estimate)
    requires
        live(shape) <= u64::MAX,
    ensures
        r == estimated(shape),
{
    let nodes: u64 = if shape.nodes == 0 {
        1
    } else {
        shape.nodes
    };
    let snapshots: u64 = if shape.max_snapshots == 0 {
        1
    } else {
        shape.max_snapshots
    };
    let pods = sat_mul(nodes, shape.pods_per_node);
    let node_part = sat_mul(nodes, PER_NODE_BYTES);
    let pod_part = sat_mul(pods, PER_POD_BYTES);
    let event_part = sat_mul(nodes, EVENT_WINDOW_BYTES_PER_NODE);
    let live_bytes: u64 = FIXED_CLUSTER_BYTES + node_part + pod_part + event_part;
    let history_bytes: u64 = sat_mul(live_bytes, HISTORY_FRACTION_PCT) / 100;
    let logical_bytes = sat_add(live_bytes, history_bytes);
    let db_bytes: u64 = sat_mul(logical_bytes, COW_OVERHEAD_PCT) / 100;
    let snapshot_bytes = sat_mul(logical_bytes, snapshots);
    let log_bytes = sat_mul(shape.snapshot_count, AVG_LOG_ENTRY_BYTES);
    let backup_bytes = db_bytes;
    let base_bytes = sat_add(sat_add(db_bytes, snapshot_bytes), log_bytes);
    let working_set_bytes = sat_add(base_bytes, backup_bytes);
    let peak_bytes = sat_add(base_bytes, sat_mul(backup_bytes, shape.upgrade_backup_retain));
    let recommended_volume_bytes: u64 = sat_mul(peak_bytes, 100) / HIGH_WATER_PCT;
    Estimate {
        live_bytes,
        history_bytes,
        db_bytes,
        snapshot_bytes,
        log_bytes,
        backup_bytes,
        working_set_bytes,
        peak_bytes,
        recommended_volume_bytes,
        provision_bytes: round_up_pow2(recommended_volume_bytes),
    }
}

/// A size rounded up to the next power of two, at least the smallest
/// volume.
pub fn round_up_pow2(bytes: u64) -> (r: u64)
    ensures
        r == doubled_to(PROVISION_FLOOR, bytes),
{
    let mut v: u64 = PROVISION_FLOOR;
    while v < bytes
        invariant
            v > 0,
            doubled_to(v, bytes) == doubled_to(PROVISION_FLOOR, bytes),
        decreases u64::MAX - v,
    {
        match v.checked_mul(2) {
            Some(next) => {
                v = next;
            },
            None => {
                return v;
            },
        }
    }
    v
}

/// A number of doublings of the smallest volume.
pub open spec fn doublings(k: nat) -> int
    decreases k,
{
    if k == 0 {
        PROVISION_FLOOR as int
    } else {
        2 * doublings((k - 1) as nat)
    }
}

/// What is provisioned is the smallest volume doubled some times, holds
/// what is recommended unless no 64-bit power of two does, and is not
/// twice as large as it must be.
pub proof fn law_provision_is_the_next_power_of_two(bytes: u64)
    ensures
        exists|k: nat| #[trigger] doublings(k) == doubled_to(PROVISION_FLOOR, bytes),
        doubled_to(PROVISION_FLOOR, bytes) >= PROVISION_FLOOR,
        bytes <= 0x8000_0000_0000_0000 ==> doubled_to(PROVISION_FLOOR, bytes) >= bytes,
        doubled_to(PROVISION_FLOOR, bytes) == PROVISION_FLOOR || doubled_to(PROVISION_FLOOR, bytes)
            < 2 * bytes,
{
    assert(doublings(0) == PROVISION_FLOOR);
    lemma_two_to_values();
    lemma_doubled(PROVISION_FLOOR, 0, 28, bytes);
}

/// Two to the power of `n`.
spec fn two_to(n: nat) -> int
    decreases n,
{
    if n == 0 {
        1
    } else {
        2 * two_to((n - 1) as nat)
    }
}

proof fn lemma_two_to_values()
    ensures
        two_to(28) == PROVISION_FLOOR,
        two_to(62) == 0x4000_0000_0000_0000,
        two_to(63) == 0x8000_0000_0000_0000,
{
    reveal_with_fuel(two_to, 10);
    assert(two_to(9) == 512);
    assert(two_to(18) == 512 * 512);
    assert(two_to(27) == 512 * 512 * 512);
    assert(two_to(36) == 512 * 512 * 512 * 512);
    assert(two_to(45) == 512 * 512 * 512 * 512 * 512);
    assert(two_to(54) == 512 * 512 * 512 * 512 * 512 * 512);
}

proof fn lemma_doubled(v: u64, k: nat, e: nat, bytes: u64)
    requires
        doublings(k) == v,
        v == two_to(e),
        e <= 63,
        v >= PROVISION_FLOOR,
        v == PROVISION_FLOOR || v < 2 * bytes,
    ensures
        exists|j: nat| #[trigger] doublings(j) == doubled_to(v, bytes),
        doubled_to(v, bytes) >= v,
        bytes <= 0x8000_0000_0000_0000 ==> doubled_to(v, bytes) >= bytes,
        doubled_to(v, bytes) == PROVISION_FLOOR || doubled_to(v, bytes) < 2 * bytes,
    decreases 63 - e,
{
    lemma_two_to_values();
    if v >= bytes {
    } else if v * 2 > u64::MAX {
        if e < 63 {
            lemma_two_to_grows(e, 62);
            assert(two_to(63) == 2 * two_to(62));
        }
    } else {
        assert(doublings(k + 1) == v * 2);
        assert(two_to(e + 1) == v * 2);
        if e == 63 {
            assert(v * 2 > u64::MAX);
        }
        lemma_doubled((v * 2) as u64, k + 1, e + 1, bytes);
    }
}

proof fn lemma_two_to_grows(a: nat, b: nat)
    requires
        a <= b,
    ensures
        two_to(a) <= two_to(b),
        two_to(a) >= 1,
    decreases b,
{
    if a < b {
        lemma_two_to_grows(a, (b - 1) as nat);
    } else if a > 0 {
        lemma_two_to_grows((a - 1) as nat, (a - 1) as nat);
    }
}

/// Cutting at the top keeps the order.
proof fn lemma_capped(a: int, b: int)
    requires
        0 <= a <= b,
    ensures
        capped(a) <= capped(b),
{
}

/// No figure of an estimate was cut at the top.
pub open spec fn fits(shape: ClusterShape) -> bool {
    let l = live(shape) as u64;
    logical(l) * COW_OVERHEAD_PCT <= u64::MAX && peak(shape, l) * 100 <= u64::MAX
}

proof fn lemma_doubled_grows(v: u64, a: u64, b: u64)
    requires
        a <= b,
    ensures
        doubled_to(v, a) <= doubled_to(v, b),
        v <= doubled_to(v, b),
    decreases u64::MAX - v,
{
    if !(v >= b || v == 0 || v * 2 > u64::MAX) {
        lemma_doubled_grows((v * 2) as u64, a, b);
    }
}

/// A larger cluster needs a larger volume: with the other settings the
/// same, more nodes never lower any term of the estimate, and raise every
/// term that depends on them where none was cut at the top. (A cluster
/// without nodes counts as one of a single node.)
pub proof fn law_estimate_grows_with_the_cluster(small: ClusterShape, large: ClusterShape)
    requires
        small.nodes <= large.nodes,
        large == (ClusterShape { nodes: large.nodes, ..small }),
        live(large) <= u64::MAX,
    ensures
        live(small) <= live(large),
        estimated(small).live_bytes <= estimated(large).live_bytes,
        estimated(small).db_bytes <= estimated(large).db_bytes,
        estimated(small).snapshot_bytes <= estimated(large).snapshot_bytes,
        estimated(small).working_set_bytes <= estimated(large).working_set_bytes,
        estimated(small).peak_bytes <= estimated(large).peak_bytes,
        estimated(small).recommended_volume_bytes <= estimated(large).recommended_volume_bytes,
        estimated(small).provision_bytes <= estimated(large).provision_bytes,
        at_least_one(small.nodes) < large.nodes ==> estimated(small).live_bytes < estimated(
            large,
        ).live_bytes,
        at_least_one(small.nodes) < large.nodes && fits(large) ==> {
            &&& estimated(small).db_bytes < estimated(large).db_bytes
            &&& estimated(small).snapshot_bytes < estimated(large).snapshot_bytes
            &&& estimated(small).peak_bytes < estimated(large).peak_bytes
            &&& estimated(small).recommended_volume_bytes < estimated(
                large,
            ).recommended_volume_bytes
        },
{
    let a = at_least_one(small.nodes);
    let b = at_least_one(large.nodes);
    let p = small.pods_per_node;
    assert(a * p <= b * p) by (nonlinear_arith)
        requires
            a <= b,
    ;
    lemma_capped(a * p, b * p);
    lemma_capped(capped(a * p) * PER_POD_BYTES, capped(b * p) * PER_POD_BYTES);
    let l = live(small) as u64;
    let m = live(large) as u64;
    assert(l <= m);
    assert(history(l) <= history(m));
    assert(logical(l) <= logical(m));
    assert(db(l) <= db(m));
    let s = at_least_one(small.max_snapshots);
    assert(logical(l) * s <= logical(m) * s) by (nonlinear_arith)
        requires
            logical(l) <= logical(m),
    ;
    let r = small.upgrade_backup_retain;
    assert(db(l) * r <= db(m) * r) by (nonlinear_arith)
        requires
            db(l) <= db(m),
    ;
    lemma_doubled_grows(PROVISION_FLOOR, recommended(small, l), recommended(large, m));
    if a < b {
        assert(capped(b * PER_NODE_BYTES) < u64::MAX);
        assert(l < m);
        if fits(large) {
            assert(logical(l) < logical(m));
            assert(logical(l) * s < logical(m) * s) by (nonlinear_arith)
                requires
                    logical(l) < logical(m),
                    s >= 1,
            ;
            assert(db(l) < db(m));
            assert(base(small, l) < base(large, m));
        }
    }
}

/// The snapshots are full copies: whatever the cluster, the volume that is
/// there without any backup holds the data once in the file and once more
/// in a snapshot.
pub proof fn law_a_snapshot_is_a_full_copy(shape: ClusterShape)
    requires
        live(shape) <= u64::MAX,
    ensures
        estimated(shape).snapshot_bytes >= logical(estimated(shape).live_bytes),
        estimated(shape).working_set_bytes >= estimated(shape).db_bytes,
{
    let l = live(shape) as u64;
    let s = at_least_one(shape.max_snapshots);
    assert(logical(l) * s >= logical(l)) by (nonlinear_arith)
        requires
            s >= 1,
    ;
}

/// A quotient rounded to the nearest number, halves to the even one.
pub open spec fn half_even(n: int, d: int) -> int {
    let q = n / d;
    let r = n % d;
    if 2 * r > d || (2 * r == d && q % 2 == 1) {
        q + 1
    } else {
        q
    }
}

/// A 64-bit number rounded to 53 significant bits, halves to even.
pub open spec fn to_53_bits(n: u64) -> int {
    if n < 0x20_0000_0000_0000 {
        n as int
    } else if n < 0x40_0000_0000_0000 {
        half_even(n as int, 2) * 2
    } else if n < 0x80_0000_0000_0000 {
        half_even(n as int, 4) * 4
    } else if n < 0x100_0000_0000_0000 {
        half_even(n as int, 8) * 8
    } else if n < 0x200_0000_0000_0000 {
        half_even(n as int, 16) * 16
    } else if n < 0x400_0000_0000_0000 {
        half_even(n as int, 32) * 32
    } else if n < 0x800_0000_0000_0000 {
        half_even(n as int, 64) * 64
    } else if n < 0x1000_0000_0000_0000 {
        half_even(n as int, 128) * 128
    } else if n < 0x2000_0000_0000_0000 {
        half_even(n as int, 256) * 256
    } else if n < 0x4000_0000_0000_0000 {
        half_even(n as int, 512) * 512
    } else if n < 0x8000_0000_0000_0000 {
        half_even(n as int, 1024) * 1024
    } else {
        half_even(n as int, 2048) * 2048
    }
}

/// The unit that a size is shown in, in bytes, and its name.
pub open spec fn unit_of(f: int) -> (int, Seq<char>) {
    if f < 0x10_0000 {
        (0x400, "KiB"@)
    } else if f < 0x4000_0000 {
        (0x10_0000, "MiB"@)
    } else if f < 0x100_0000_0000 {
        (0x4000_0000, "GiB"@)
    } else {
        (0x100_0000_0000, "TiB"@)
    }
}

/// A number of tenths with one decimal.
pub open spec fn one_decimal(tenths: int) -> Seq<char> {
    text::dec((tenths / 10) as nat) + "."@ + text::dec((tenths % 10) as nat)
}

/// A size as an operator reads it: whole bytes below a kibibyte, else one
/// decimal of the largest unit that it reaches, the size taken at 53 bits
/// and halves rounded to even.
pub open spec fn readable(bytes: u64) -> Seq<char> {
    if bytes < 1024 {
        text::dec(bytes as nat) + " B"@
    } else {
        let f = to_53_bits(bytes);
        let (unit, name) = unit_of(f);
        one_decimal(half_even(f * 10, unit)) + " "@ + name
    }
}

/// A quotient rounded to the nearest number, halves to the even one.
fn rounded(n: u128, d: u128) -> (r: u128)
    requires
        0 < d <= 0x100_0000_0000,
        n <= 0x1_0000_0000_0000_0000 * 10,
    ensures
        r == half_even(n as int, d as int),
{
    let q: u128 = n / d;
    let m: u128 = n % d;
    assert(q <= n) by (nonlinear_arith)
        requires
            d > 0,
            q == n / d,
    ;
    if 2 * m > d || (2 * m == d && q % 2 == 1) {
        q + 1
    } else {
        q
    }
}

/// The place value of the last of 53 significant bits.
fn last_place(n: u64) -> (r: u128)
    ensures
        n < 0x20_0000_0000_0000 ==> r == 1,
        n >= 0x20_0000_0000_0000 ==> 2 <= r <= 2048 && to_53_bits(n) == half_even(
            n as int,
            r as int,
        ) * r,
{
    if n < 0x20_0000_0000_0000 {
        1
    } else if n < 0x40_0000_0000_0000 {
        2
    } else if n < 0x80_0000_0000_0000 {
        4
    } else if n < 0x100_0000_0000_0000 {
        8
    } else if n < 0x200_0000_0000_0000 {
        16
    } else if n < 0x400_0000_0000_0000 {
        32
    } else if n < 0x800_0000_0000_0000 {
        64
    } else if n < 0x1000_0000_0000_0000 {
        128
    } else if n < 0x2000_0000_0000_0000 {
        256
    } else if n < 0x4000_0000_0000_0000 {
        512
    } else if n < 0x8000_0000_0000_0000 {
        1024
    } else {
        2048
    }
}

/// A 64-bit number rounded to 53 significant bits, halves to even.
fn at_53_bits(n: u64) -> (r: u128)
    ensures
        r == to_53_bits(n),
        n <= r + 1024,
        r <= 0x1_0000_0000_0000_0000,
        n >= 1024 ==> r >= 1024,
{
    let place = last_place(n);
    if place == 1 {
        return n as u128;
    }
    let q = rounded(n as u128, place);
    proof {
        let x = n as int;
        let d = place as int;
        assert(x == d * (x / d) + x % d) by (nonlinear_arith)
            requires
                d > 0,
        ;
        assert(0 <= x % d < d) by (nonlinear_arith)
            requires
                d > 0,
        ;
        let h = half_even(x, d);
        assert(d * (x / d + 1) == d * (x / d) + d) by (nonlinear_arith);
        assert(h * d == d * h) by (nonlinear_arith);
        lemma_rounds_within(n);
    }
    q * place
}

/// Rounding to 53 bits does not pass the next power of two.
proof fn lemma_rounds_within(n: u64)
    ensures
        to_53_bits(n) <= 0x1_0000_0000_0000_0000,
        n <= to_53_bits(n) + 1024,
        n >= 1024 ==> to_53_bits(n) >= 1024,
{
}

/// A size as an operator reads it.
pub fn human(bytes: u64) -> (r: String)
    ensures
        r@ == readable(bytes),
{
    if bytes < 1024 {
        return dec_u64(bytes).concat(" B");
    }
    let f = at_53_bits(bytes);
    let unit: u128;
    let name: &str;
    if f < 0x10_0000 {
        unit = 0x400;
        name = "KiB";
    } else if f < 0x4000_0000 {
        unit = 0x10_0000;
        name = "MiB";
    } else if f < 0x100_0000_0000 {
        unit = 0x4000_0000;
        name = "GiB";
    } else {
        unit = 0x100_0000_0000;
        name = "TiB";
    }
    let tenths = rounded(f * 10, unit);
    assert(tenths <= 1_000_000_000) by {
        lemma_tenths_small(f as int, unit as int);
    }
    let whole: u64 = (tenths / 10) as u64;
    let part: u64 = (tenths % 10) as u64;
    let mut s = join3(dec_u64(whole).as_str(), ".", dec_u64(part).as_str());
    s.append(" ");
    s.append(name);
    s
}

proof fn lemma_tenths_small(f: int, unit: int)
    requires
        0 <= f <= 0x1_0000_0000_0000_0000,
        (unit == 0x400 && f < 0x10_0000) || (unit == 0x10_0000 && f < 0x4000_0000) || (unit
            == 0x4000_0000 && f < 0x100_0000_0000) || unit == 0x100_0000_0000,
    ensures
        half_even(f * 10, unit) <= 1_000_000_000,
{
}

/// A number of blanks.
pub open spec fn blanks(n: nat) -> Seq<char> {
    Seq::new(n, |i: int| ' ')
}

/// A text moved to the right end of ten columns.
pub open spec fn right_10(t: Seq<char>) -> Seq<char> {
    if t.len() >= 10 {
        t
    } else {
        blanks((10 - t.len()) as nat) + t
    }
}

/// A text moved to the right end of ten columns.
fn pad_10(t: &str) -> (r: String)
    ensures
        r@ == right_10(t@),
{
    let n: usize = t.unicode_len();
    let mut s = String::from_str("");
    let mut i: usize = n;
    proof {
        reveal_strlit("");
        reveal_strlit(" ");
        assert(s@ =~= blanks(0));
    }
    while i < 10
        invariant
            n <= i,
            i <= 10 || i == n,
            s@ == blanks((i - n) as nat),
            " "@ =~= seq![' '],
        decreases 10 - i,
    {
        s.append(" ");
        i += 1;
        assert(s@ =~= blanks((i - n) as nat));
    }
    s.append(t);
    assert(s@ =~= right_10(t@));
    s
}

/// A line of the report: a label, a size in ten columns, and a remark.
pub open spec fn row_text(label: Seq<char>, bytes: u64, remark: Seq<char>) -> Seq<char> {
    label + right_10(readable(bytes)) + remark
}

/// A line of the report.
fn row(label: &str, bytes: u64, remark: &str) -> (r: String)
    ensures
        r@ == row_text(label@, bytes, remark@),
{
    join3(label, pad_10(human(bytes).as_str()).as_str(), remark)
}

/// The first lines of the report: the shape and the settings.
pub open spec fn report_head(s: ClusterShape) -> Seq<char> {
    "Cluster shape: "@ + text::dec(s.nodes as nat) + " node(s), "@ + text::dec(
        s.pods_per_node as nat,
    ) + " pods/node ("@ + text::dec((s.nodes * s.pods_per_node) as nat) + " pods)\n"@
        + "Store settings: --snapshot-count "@ + text::dec(s.snapshot_count as nat)
        + ", --max-snapshots "@ + text::dec(s.max_snapshots as nat) + ", --upgrade-backup-retain "@
        + text::dec(s.upgrade_backup_retain as nat) + "\n\n"@
}

/// What follows the size of the live objects.
pub open spec fn live_remark() -> Seq<char> {
    "   ("@ + readable(FIXED_CLUSTER_BYTES) + " fixed + "@ + readable(PER_NODE_BYTES) + "/node + "@
        + readable(PER_POD_BYTES) + "/pod)\n"@
}

/// What follows the size of the log.
pub open spec fn log_remark(s: ClusterShape) -> Seq<char> {
    "   ("@ + text::dec(s.snapshot_count as nat) + " entries x "@ + readable(AVG_LOG_ENTRY_BYTES)
        + ")\n"@
}

/// The label of the peak.
pub open spec fn peak_label(s: ClusterShape) -> Seq<char> {
    "  peak (all "@ + text::dec(s.upgrade_backup_retain as nat) + " backups)      "@
}

/// The report of an estimate.
pub open spec fn report_text(s: ClusterShape) -> Seq<char> {
    let e = estimated(s);
    report_head(s) + "What occupies the volume:\n"@ + row_text(
        "  live objects              "@,
        e.live_bytes,
        live_remark(),
    ) + row_text(
        "  MVCC history             +"@,
        e.history_bytes,
        "   (30% of live, between compactions)\n"@,
    ) + row_text(
        "  = database file           "@,
        e.db_bytes,
        "   (x160% copy-on-write overhead)\n"@,
    ) + row_text(
        "  raft snapshot(s)         +"@,
        e.snapshot_bytes,
        "   (a FULL copy of the database)\n"@,
    ) + row_text("  raft log                 +"@, e.log_bytes, log_remark(s)) + row_text(
        "  upgrade backup           +"@,
        e.backup_bytes,
        "   (another full copy, after a version change)\n"@,
    ) + row_text("\n  working set               "@, e.working_set_bytes, "\n"@) + row_text(
        peak_label(s),
        e.peak_bytes,
        "\n"@,
    ) + row_text(
        "\nMinimum volume              "@,
        e.recommended_volume_bytes,
        "   (peak below the 80% high-water mark)\n"@,
    ) + row_text("PROVISION                   "@, e.provision_bytes, "\n"@)
        + "\nThe snapshot term is the one that surprises people: it is a full copy\nof the database, so the floor is roughly twice the data before any\nheadroom. Sizing for the data alone is how a volume fills.\n"@
}

/// The numbers of a report fit in 64 bits.
pub open spec fn reportable(shape: ClusterShape) -> bool {
    live(shape) <= u64::MAX && shape.nodes * shape.pods_per_node <= u64::MAX
}

/// Whether the numbers of a report fit in 64 bits.
pub fn can_report(shape: ClusterShape) -> (r: bool)
    ensures
        r == reportable(shape),
{
    let nodes: u64 = if shape.nodes == 0 {
        1
    } else {
        shape.nodes
    };
    let pods = sat_mul(nodes, shape.pods_per_node);
    let node_part = sat_mul(nodes, PER_NODE_BYTES);
    let pod_part = sat_mul(pods, PER_POD_BYTES);
    let event_part = sat_mul(nodes, EVENT_WINDOW_BYTES_PER_NODE);
    let sum: u128 = FIXED_CLUSTER_BYTES as u128 + node_part as u128 + pod_part as u128
        + event_part as u128;
    sum <= u64::MAX as u128 && shape.nodes.checked_mul(shape.pods_per_node).is_some()
}

/// The report of an estimate, with its arithmetic.
pub fn report(shape: ClusterShape) -> (r: String)
    requires
        reportable(shape),
    ensures
        r@ == report_text(shape),
{
    let e = estimate(shape);
    let pods: u64 = shape.nodes * shape.pods_per_node;
    let mut s = join3("Cluster shape: ", dec_u64(shape.nodes).as_str(), " node(s), ");
    s.append(dec_u64(shape.pods_per_node).as_str());
    s.append(" pods/node (");
    s.append(dec_u64(pods).as_str());
    s.append(" pods)\n");
    s.append("Store settings: --snapshot-count ");
    s.append(dec_u64(shape.snapshot_count).as_str());
    s.append(", --max-snapshots ");
    s.append(dec_u64(shape.max_snapshots).as_str());
    s.append(", --upgrade-backup-retain ");
    s.append(dec_u64(shape.upgrade_backup_retain).as_str());
    s.append("\n\n");
    assert(s@ == report_head(shape));
    let mut live_tail = join3("   (", human(FIXED_CLUSTER_BYTES).as_str(), " fixed + ");
    live_tail.append(human(PER_NODE_BYTES).as_str());
    live_tail.append("/node + ");
    live_tail.append(human(PER_POD_BYTES).as_str());
    live_tail.append("/pod)\n");
    let mut log_tail = join3("   (", dec_u64(shape.snapshot_count).as_str(), " entries x ");
    log_tail.append(human(AVG_LOG_ENTRY_BYTES).as_str());
    log_tail.append(")\n");
    let peak_head = join3(
        "  peak (all ",
        dec_u64(shape.upgrade_backup_retain).as_str(),
        " backups)      ",
    );
    s.append("What occupies the volume:\n");
    s.append(row("  live objects              ", e.live_bytes, live_tail.as_str()).as_str());
    s.append(
        row(
            "  MVCC history             +",
            e.history_bytes,
            "   (30% of live, between compactions)\n",
        ).as_str(),
    );
    s.append(
        row(
            "  = database file           ",
            e.db_bytes,
            "   (x160% copy-on-write overhead)\n",
        ).as_str(),
    );
    s.append(
        row(
            "  raft snapshot(s)         +",
            e.snapshot_bytes,
            "   (a FULL copy of the database)\n",
        ).as_str(),
    );
    s.append(row("  raft log                 +", e.log_bytes, log_tail.as_str()).as_str());
    s.append(
        row(
            "  upgrade backup           +",
            e.backup_bytes,
            "   (another full copy, after a version change)\n",
        ).as_str(),
    );
    s.append(row("\n  working set               ", e.working_set_bytes, "\n").as_str());
    s.append(row(peak_head.as_str(), e.peak_bytes, "\n").as_str());
    s.append(
        row(
            "\nMinimum volume              ",
            e.recommended_volume_bytes,
            "   (peak below the 80% high-water mark)\n",
        ).as_str(),
    );
    s.append(row("PROVISION                   ", e.provision_bytes, "\n").as_str());
    s.append(
        "\nThe snapshot term is the one that surprises people: it is a full copy\nof the database, so the floor is roughly twice the data before any\nheadroom. Sizing for the data alone is how a volume fills.\n",
    );
    s
}

/// The live data of a cluster: 32 MiB that do not grow, and per node
/// 10 KiB, a 64 KiB window of events, and 8 KiB for each of its pods.
pub proof fn law_live_data_is_counted_per_node_and_pod(shape: ClusterShape)
    requires
        shape.nodes >= 1,
        shape.nodes * shape.pods_per_node * 8192 <= u64::MAX,
        shape.nodes * 65_536 <= u64::MAX,
    ensures
        live(shape) == 32 * 1024 * 1024 + shape.nodes * (10 * 1024 + 64 * 1024) + shape.nodes
            * shape.pods_per_node * (8 * 1024),
        live(ClusterShape { nodes: 0, ..shape }) == live(ClusterShape { nodes: 1, ..shape }),
{
    let p = shape.nodes * shape.pods_per_node;
    assert(0 <= p <= p * 8192) by (nonlinear_arith)
        requires
            p == shape.nodes * shape.pods_per_node,
    ;
    assert(shape.nodes * 10_240 <= shape.nodes * 65_536);
    assert(shape.nodes * (10 * 1024 + 64 * 1024) == shape.nodes * 10_240 + shape.nodes * 65_536)
        by (nonlinear_arith);
    assert(at_least_one(shape.nodes) == shape.nodes);
    assert(capped(p) == p);
    assert(capped(p) * PER_POD_BYTES == p * 8192);
    assert(shape.nodes * shape.pods_per_node * (8 * 1024) == p * 8192);
}

/// The history is three tenths of the live data, and the file is the two
/// together and three fifths more, each rounded down.
pub proof fn law_file_is_live_data_history_and_overhead(l: u64)
    requires
        l * 30 <= u64::MAX,
        (l + l * 30 / 100) * 160 <= u64::MAX,
    ensures
        history(l) == l * 30 / 100,
        logical(l) == l + history(l),
        db(l) == (l + history(l)) * 160 / 100,
{
}

/// What is there at most is the file, each snapshot as a full copy of the
/// data, the log, and each backup as a full copy of the file; the working
/// set is that with one backup. The volume that is recommended is the
/// smallest that the mark of four fifths allows, rounded down to a byte.
pub proof fn law_peak_is_the_sum_of_the_copies(shape: ClusterShape)
    requires
        live(shape) <= u64::MAX,
        ({
            let l = live(shape) as u64;
            let copies = if shape.max_snapshots == 0 {
                1
            } else {
                shape.max_snapshots as int
            };
            &&& l * 30 <= u64::MAX
            &&& (l + l * 30 / 100) * 160 <= u64::MAX
            &&& (db(l) + logical(l) * copies + shape.snapshot_count * 2048 + db(l) * (
            shape.upgrade_backup_retain + 1)) * 100 <= u64::MAX
        }),
    ensures
        ({
            let e = estimated(shape);
            let copies = if shape.max_snapshots == 0 {
                1
            } else {
                shape.max_snapshots as int
            };
            let without = e.db_bytes + e.snapshot_bytes + e.log_bytes;
            &&& e.live_bytes == live(shape)
            &&& e.history_bytes == e.live_bytes * 30 / 100
            &&& e.db_bytes == (e.live_bytes + e.history_bytes) * 160 / 100
            &&& e.snapshot_bytes == (e.live_bytes + e.history_bytes) * copies
            &&& e.log_bytes == shape.snapshot_count * 2048
            &&& e.backup_bytes == e.db_bytes
            &&& e.working_set_bytes == without + e.db_bytes
            &&& e.peak_bytes == without + e.db_bytes * shape.upgrade_backup_retain
            &&& e.recommended_volume_bytes * 80 <= e.peak_bytes * 100 < (
            e.recommended_volume_bytes + 1) * 80
            &&& e.provision_bytes == doubled_to(PROVISION_FLOOR, e.recommended_volume_bytes)
        }),
{
    let l = live(shape) as u64;
    let copies = if shape.max_snapshots == 0 {
        1
    } else {
        shape.max_snapshots as int
    };
    law_file_is_live_data_history_and_overhead(l);
    assert(logical(l) * copies >= 0) by (nonlinear_arith)
        requires
            copies >= 0,
            logical(l) >= 0,
    ;
    assert(db(l) * (shape.upgrade_backup_retain + 1) == db(l) * shape.upgrade_backup_retain + db(
        l,
    )) by (nonlinear_arith);
    assert(db(l) * shape.upgrade_backup_retain >= 0) by (nonlinear_arith);
}

/// The smallest volume is 256 MiB, and pods are counted at thirty a node
/// unless something else is said.
pub proof fn law_smallest_volume_is_a_quarter_gibibyte()
    ensures
        PROVISION_FLOOR == 256 * 1024 * 1024,
        DEFAULT_PODS_PER_NODE == 30,
        HIGH_WATER_PCT == 80,
        HISTORY_FRACTION_PCT == 30,
        COW_OVERHEAD_PCT == 160,
{
}

/// A number cut at the top is itself where it fits, and the largest where
/// it does not; and a count of none is taken as one.
pub proof fn law_numbers_are_cut_at_the_top(n: int, m: u64)
    ensures
        0 <= n <= u64::MAX ==> capped(n) == n,
        n > u64::MAX ==> capped(n) == u64::MAX,
        at_least_one(0) == 1,
        m > 0 ==> at_least_one(m) == m,
        doublings(0) == 256 * 1024 * 1024,
        doublings((m + 1) as nat) == 2 * doublings(m as nat),
{
}

/// A rounded quotient is the nearest whole number, and of two that are
/// equally near the even one.
pub proof fn law_quotient_is_rounded_to_nearest(n: int, d: int)
    requires
        n >= 0,
        d > 0,
    ensures
        2 * (half_even(n, d) * d - n) <= d,
        2 * (n - half_even(n, d) * d) <= d,
        2 * (half_even(n, d) * d - n) == d || 2 * (n - half_even(n, d) * d) == d ==> half_even(
            n,
            d,
        ) % 2 == 0,
{
    let q = n / d;
    let r = n % d;
    assert(n == q * d + r && 0 <= r < d) by (nonlinear_arith)
        requires
            d > 0,
            q == n / d,
            r == n % d,
    ;
    assert((q + 1) * d == q * d + d) by (nonlinear_arith);
    assert(q % 2 == 0 || q % 2 == 1);
}

/// A number that fits 53 bits is shown as it is; a larger one is the
/// nearest multiple of the place that 53 bits leave, which is off by half
/// that place at most.
pub proof fn law_size_is_taken_at_53_bits(n: u64, place: int)
    requires
        place == 2 || place == 4 || place == 8 || place == 16 || place == 32 || place == 64
            || place == 128 || place == 256 || place == 512 || place == 1024 || place == 2048,
    ensures
        n < 0x20_0000_0000_0000 ==> to_53_bits(n) == n,
        place * 0x10_0000_0000_0000 <= n < place * 0x20_0000_0000_0000 ==> {
            &&& to_53_bits(n) == half_even(n as int, place) * place
            &&& 2 * (to_53_bits(n) - n) <= place
            &&& 2 * (n - to_53_bits(n)) <= place
        },
{
    law_quotient_is_rounded_to_nearest(n as int, place);
}

/// A size is shown in the largest unit it reaches, and each unit is 1024
/// of the one before.
pub proof fn law_unit_is_the_largest_reached(f: int)
    ensures
        f < 1024 * 1024 ==> unit_of(f) == (1024int, "KiB"@),
        1024 * 1024 <= f < 1024 * 1024 * 1024 ==> unit_of(f) == (1024 * 1024int, "MiB"@),
        1024 * 1024 * 1024 <= f < 1024 * 1024 * 1024 * 1024 ==> unit_of(f) == (
            1024 * 1024 * 1024int,
            "GiB"@,
        ),
        f >= 1024 * 1024 * 1024 * 1024 ==> unit_of(f) == (
            1024 * 1024 * 1024 * 1024int,
            "TiB"@,
        ),
{
}

/// A size below a kibibyte is shown in whole bytes; any other in tenths of
/// its unit, the nearest to what it is.
pub proof fn law_size_is_shown_to_the_nearest_tenth(bytes: u64)
    ensures
        bytes < 1024 ==> readable(bytes) == text::dec(bytes as nat) + " B"@,
        bytes >= 1024 ==> {
            let f = to_53_bits(bytes);
            let (unit, name) = unit_of(f);
            let tenths = half_even(f * 10, unit);
            &&& readable(bytes) == text::dec((tenths / 10) as nat) + "."@ + text::dec(
                (tenths % 10) as nat,
            ) + " "@ + name
            &&& f >= 0 ==> 2 * (tenths * unit - f * 10) <= unit && 2 * (f * 10 - tenths * unit)
                <= unit
        },
{
    if bytes >= 1024 {
        let f = to_53_bits(bytes);
        let (unit, name) = unit_of(f);
        if f >= 0 {
            law_quotient_is_rounded_to_nearest(f * 10, unit);
        }
    }
}

/// A text is moved to the right end of ten columns by blanks in front of
/// it alone; a longer one stays.
pub proof fn law_text_is_moved_by_blanks_alone(t: Seq<char>, i: int)
    ensures
        t.len() >= 10 ==> right_10(t) == t,
        t.len() < 10 ==> right_10(t).len() == 10,
        t.len() < 10 ==> right_10(t).skip(10 - t.len()) == t,
        t.len() < 10 && 0 <= i < 10 - t.len() ==> right_10(t)[i] == ' ',
{
    if t.len() < 10 {
        assert(right_10(t).skip(10 - t.len()) =~= t);
    }
}

/// A line of the report is its label, the size in ten columns and its
/// remark.
pub proof fn law_line_is_label_size_and_remark(
    label: Seq<char>,
    bytes: u64,
    remark: Seq<char>,
)
    ensures
        row_text(label, bytes, remark) == label + right_10(readable(bytes)) + remark,
{
}

/// The report names the shape and the settings it is for, before anything
/// else, and ends with the volume to provision and why.
pub proof fn law_report_names_the_shape(s: ClusterShape)
    ensures
        report_head(s) == "Cluster shape: "@ + text::dec(s.nodes as nat) + " node(s), "@
            + text::dec(s.pods_per_node as nat) + " pods/node ("@ + text::dec(
            (s.nodes * s.pods_per_node) as nat,
        ) + " pods)\n"@ + "Store settings: --snapshot-count "@ + text::dec(
            s.snapshot_count as nat,
        ) + ", --max-snapshots "@ + text::dec(s.max_snapshots as nat)
            + ", --upgrade-backup-retain "@ + text::dec(s.upgrade_backup_retain as nat)
            + "\n\n"@,
        live_remark() == "   ("@ + readable(33_554_432) + " fixed + "@ + readable(10_240)
            + "/node + "@ + readable(8_192) + "/pod)\n"@,
        log_remark(s) == "   ("@ + text::dec(s.snapshot_count as nat) + " entries x "@ + readable(
            2_048,
        ) + ")\n"@,
        peak_label(s) == "  peak (all "@ + text::dec(s.upgrade_backup_retain as nat)
            + " backups)      "@,
        report_text(s).len() >= report_head(s).len(),
        report_text(s).take(report_head(s).len() as int) == report_head(s),
{
    assert(report_text(s).take(report_head(s).len() as int) =~= report_head(s));
}

/// The report shows each figure of the estimate once, under its own label
/// and in the order in which they add up.
pub proof fn law_report_shows_each_figure(s: ClusterShape)
    ensures
        ({
            let e = estimated(s);
            report_text(s) == report_head(s) + "What occupies the volume:\n"@ + row_text(
                "  live objects              "@,
                e.live_bytes,
                live_remark(),
            ) + row_text(
                "  MVCC history             +"@,
                e.history_bytes,
                "   (30% of live, between compactions)\n"@,
            ) + row_text(
                "  = database file           "@,
                e.db_bytes,
                "   (x160% copy-on-write overhead)\n"@,
            ) + row_text(
                "  raft snapshot(s)         +"@,
                e.snapshot_bytes,
                "   (a FULL copy of the database)\n"@,
            ) + row_text("  raft log                 +"@, e.log_bytes, log_remark(s)) + row_text(
                "  upgrade backup           +"@,
                e.backup_bytes,
                "   (another full copy, after a version change)\n"@,
            ) + row_text("\n  working set               "@, e.working_set_bytes, "\n"@) + row_text(
                peak_label(s),
                e.peak_bytes,
                "\n"@,
            ) + row_text(
                "\nMinimum volume              "@,
                e.recommended_volume_bytes,
                "   (peak below the 80% high-water mark)\n"@,
            ) + row_text("PROVISION                   "@, e.provision_bytes, "\n"@)
                + "\nThe snapshot term is the one that surprises people: it is a full copy\nof the database, so the floor is roughly twice the data before any\nheadroom. Sizing for the data alone is how a volume fills.\n"@
        }),
        reportable(s) <==> live(s) <= u64::MAX && s.nodes * s.pods_per_node <= u64::MAX,
{
}

} // verus!
