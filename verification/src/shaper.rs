//! The waveshaper's transfer curve as data: twelve nodes on the input axis
//! and the lookup of the band that a sample falls into.
//!
//! The curve is piecewise linear. Its nodes stand at -1, -0.8, -0.6, -0.4,
//! -0.2, -0.1, 0.1, 0.2, 0.4, 0.6, 0.8 and 1. The ten breakpoint multipliers
//! are the curve's values at the ten nodes of magnitude 0.2 and more; at
//! -0.1 and 0.1 the curve is zero, so that it is flat and silent between
//! them. A band is the stretch between two neighbouring nodes, and a sample
//! on a node belongs to the band below it. Within a band the output is
//! `w * low_value + (1 - w) * high_value`, where the weight `w` falls from 1
//! at the band's low edge to 0 at its high edge; that arithmetic is left to
//! the caller, who gets the band's two nodes from [`ShaperCurve::segment`].

use vstd::prelude::*;
use crate::binary32::{key, order_key};

verus! {

/// Number of nodes of the curve.
pub const NODES: usize = 12;

/// Number of breakpoint multipliers.
pub const BREAKPOINTS: usize = 10;

/// Index of the highest band; bands are numbered from 0.
pub const LAST_BAND: usize = 10;

/// Bit patterns of the node positions, in ascending order of value.
pub open spec fn node_edges() -> Seq<u32> {
    seq![
        0xBF80_0000u32,
        0xBF4C_CCCDu32,
        0xBF19_999Au32,
        0xBECC_CCCDu32,
        0xBE4C_CCCDu32,
        0xBDCC_CCCDu32,
        0x3DCC_CCCDu32,
        0x3E4C_CCCDu32,
        0x3ECC_CCCDu32,
        0x3F19_999Au32,
        0x3F4C_CCCDu32,
        0x3F80_0000u32,
    ]
}

/// Bit patterns of the curve's values at the nodes, for the given ten
/// multipliers: the multipliers in order, with zero at the two innermost
/// nodes.
pub open spec fn node_values(multipliers: Seq<u32>) -> Seq<u32> {
    seq![
        multipliers[0],
        multipliers[1],
        multipliers[2],
        multipliers[3],
        multipliers[4],
        0u32,
        0u32,
        multipliers[5],
        multipliers[6],
        multipliers[7],
        multipliers[8],
        multipliers[9],
    ]
}

/// How many of the nodes 1 to `n` lie strictly below the key `at`.
pub open spec fn edges_below(at: int, n: nat) -> nat
    decreases n,
{
    if n == 0 {
        0
    } else {
        edges_below(at, (n - 1) as nat) + if order_key(node_edges()[n as int]) < at {
            1nat
        } else {
            0nat
        }
    }
}

/// The band of a sample: the number of inner nodes strictly below it. Band
/// 0 reaches down from node 1 without bound and band 10 reaches up from node
/// 10 without bound, so every pattern has a band.
pub open spec fn band_of(sample: u32) -> nat {
    edges_below(order_key(sample), LAST_BAND as nat)
}

/// One band of the curve: its two nodes.
#[derive(Clone, Copy, Debug, PartialEq, Eq)]
pub struct Segment {
    /// Number of the band, 0 to 10.
    pub band: usize,
    /// Position of the lower node.
    pub low_edge: u32,
    /// Position of the upper node.
    pub high_edge: u32,
    /// The curve's value at the lower node.
    pub low_value: u32,
    /// The curve's value at the upper node.
    pub high_value: u32,
}

/// The segment that holds `sample` on the curve with the given multipliers.
pub open spec fn segment_of(multipliers: Seq<u32>, sample: u32) -> Segment {
    let band = band_of(sample) as int;
    Segment {
        band: band as usize,
        low_edge: node_edges()[band],
        high_edge: node_edges()[band + 1],
        low_value: node_values(multipliers)[band],
        high_value: node_values(multipliers)[band + 1],
    }
}

/// The nodes stand in strictly ascending order.
pub proof fn lemma_nodes_ascend(i: int, j: int)
    requires
        0 <= i < j < NODES,
    ensures
        order_key(node_edges()[i]) < order_key(node_edges()[j]),
{
    let e = node_edges();
    assert(order_key(e[0]) < order_key(e[1]));
    assert(order_key(e[1]) < order_key(e[2]));
    assert(order_key(e[2]) < order_key(e[3]));
    assert(order_key(e[3]) < order_key(e[4]));
    assert(order_key(e[4]) < order_key(e[5]));
    assert(order_key(e[5]) < order_key(e[6]));
    assert(order_key(e[6]) < order_key(e[7]));
    assert(order_key(e[7]) < order_key(e[8]));
    assert(order_key(e[8]) < order_key(e[9]));
    assert(order_key(e[9]) < order_key(e[10]));
    assert(order_key(e[10]) < order_key(e[11]));
}

/// The count of nodes below a key never exceeds the number of nodes counted
/// and never falls as more nodes are counted.
pub proof fn lemma_edges_below_grows(at: int, m: nat, n: nat)
    requires
        m <= n,
    ensures
        edges_below(at, m) <= edges_below(at, n) <= n,
        edges_below(at, m) <= m,
    decreases n,
{
    if n > m {
        lemma_edges_below_grows(at, m, (n - 1) as nat);
    } else if n > 0 {
        lemma_edges_below_grows(at, (m - 1) as nat, (n - 1) as nat);
    }
}

/// The nodes below a key are the first ones: node `j` lies below the key
/// exactly when `j` is at most the count of all nodes below it.
pub proof fn lemma_edges_below_prefix(at: int, j: int)
    requires
        1 <= j <= LAST_BAND,
    ensures
        order_key(node_edges()[j]) < at <==> j <= edges_below(at, LAST_BAND as nat),
{
    let total = LAST_BAND as nat;
    if order_key(node_edges()[j]) < at {
        lemma_edges_below_full(at, j as nat);
        lemma_edges_below_grows(at, j as nat, total);
    } else {
        lemma_edges_below_stops(at, j as nat, total);
        lemma_edges_below_grows(at, (j - 1) as nat, (j - 1) as nat);
    }
}

/// Where node `n` lies below the key, so do all nodes before it.
proof fn lemma_edges_below_full(at: int, n: nat)
    requires
        1 <= n <= LAST_BAND,
        order_key(node_edges()[n as int]) < at,
    ensures
        edges_below(at, n) == n,
    decreases n,
{
    if n > 1 {
        lemma_nodes_ascend(n - 1, n as int);
        lemma_edges_below_full(at, (n - 1) as nat);
    } else {
        assert(edges_below(at, 0) == 0);
    }
}

/// Where node `j` does not lie below the key, no node from `j` on is
/// counted.
proof fn lemma_edges_below_stops(at: int, j: nat, n: nat)
    requires
        1 <= j <= LAST_BAND,
        j - 1 <= n <= LAST_BAND,
        order_key(node_edges()[j as int]) >= at,
    ensures
        edges_below(at, n) == edges_below(at, (j - 1) as nat),
    decreases n,
{
    if n >= j {
        if n > j {
            lemma_nodes_ascend(j as int, n as int);
        }
        lemma_edges_below_stops(at, j, (n - 1) as nat);
    }
}

/// The bands part the whole input axis without gap or overlap: a sample's
/// band is the one and only band `b` whose lower node lies strictly below
/// the sample (where `b` has an inner lower node) and whose upper node does
/// not (where `b` has an inner upper node). A sample on a node therefore
/// belongs to the band below the node.
pub proof fn lemma_bands_partition(sample: u32, b: int)
    requires
        0 <= b <= LAST_BAND,
    ensures
        band_of(sample) <= LAST_BAND,
        b == band_of(sample) <==> {
            &&& (b > 0 ==> order_key(node_edges()[b]) < order_key(sample))
            &&& (b < LAST_BAND ==> order_key(sample) <= order_key(node_edges()[b + 1]))
        },
{
    let at = order_key(sample);
    lemma_edges_below_grows(at, 0, LAST_BAND as nat);
    if b > 0 {
        lemma_edges_below_prefix(at, b);
    }
    if b < LAST_BAND {
        lemma_edges_below_prefix(at, b + 1);
    }
}

/// A sample between -1 and 1 lies between the two nodes of its segment.
pub proof fn lemma_segment_holds_sample(multipliers: Seq<u32>, sample: u32)
    requires
        order_key(node_edges()[0]) <= order_key(sample) <= order_key(node_edges()[NODES - 1]),
    ensures
        order_key(segment_of(multipliers, sample).low_edge) <= order_key(sample) <= order_key(
            segment_of(multipliers, sample).high_edge,
        ),
{
    lemma_edges_below_grows(order_key(sample), 0, LAST_BAND as nat);
    lemma_bands_partition(sample, band_of(sample) as int);
}

/// Position of node `node`.
pub fn node_edge(node: usize) -> (bits: u32)
    requires
        node < NODES,
    ensures
        bits == node_edges()[node as int],
{
    if node == 0 {
        0xBF80_0000
    } else if node == 1 {
        0xBF4C_CCCD
    } else if node == 2 {
        0xBF19_999A
    } else if node == 3 {
        0xBECC_CCCD
    } else if node == 4 {
        0xBE4C_CCCD
    } else if node == 5 {
        0xBDCC_CCCD
    } else if node == 6 {
        0x3DCC_CCCD
    } else if node == 7 {
        0x3E4C_CCCD
    } else if node == 8 {
        0x3ECC_CCCD
    } else if node == 9 {
        0x3F19_999A
    } else if node == 10 {
        0x3F4C_CCCD
    } else {
        0x3F80_0000
    }
}

/// The band that `sample` falls into.
pub fn band(sample: u32) -> (b: usize)
    ensures
        b == band_of(sample),
        b <= LAST_BAND,
{
    let at = key(sample);
    let mut b: usize = 0;
    while b < LAST_BAND && key(node_edge(b + 1)) < at
        invariant
            b <= LAST_BAND,
            at == order_key(sample),
            b > 0 ==> order_key(node_edges()[b as int]) < at,
        decreases LAST_BAND - b,
    {
        b = b + 1;
    }
    proof {
        lemma_bands_partition(sample, b as int);
    }
    b
}

/// The ten breakpoint multipliers of a curve.
#[derive(Clone, Copy, Debug)]
pub struct ShaperCurve {
    multipliers: [u32; 10],
}

impl View for ShaperCurve {
    type V = Seq<u32>;

    closed spec fn view(&self) -> Seq<u32> {
        self.multipliers@
    }
}

impl ShaperCurve {
    /// The curve with the given multipliers, lowest node first.
    pub fn new(multipliers: [u32; 10]) -> (curve: ShaperCurve)
        ensures
            curve@ == multipliers@,
            curve@.len() == BREAKPOINTS,
    {
        ShaperCurve { multipliers }
    }

    /// The curve's value at node `node`.
    pub fn node_value(&self, node: usize) -> (bits: u32)
        requires
            node < NODES,
        ensures
            bits == node_values(self@)[node as int],
    {
        if node < 5 {
            self.multipliers[node]
        } else if node < 7 {
            0
        } else {
            self.multipliers[node - 2]
        }
    }

    /// The band of `sample` with the positions and values of its two nodes.
    pub fn segment(&self, sample: u32) -> (s: Segment)
        ensures
            s == segment_of(self@, sample),
            s.band <= LAST_BAND,
    {
        let b = band(sample);
        Segment {
            band: b,
            low_edge: node_edge(b),
            high_edge: node_edge(b + 1),
            low_value: self.node_value(b),
            high_value: self.node_value(b + 1),
        }
    }
}

} // verus!
