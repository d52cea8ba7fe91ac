//! A load test under limited bandwidth.

use crate::decimal::{decimal, push_decimal};
use vstd::prelude::*;
use vstd::string::*;

verus! {

/// The rate of the bandwidth limit, in megabits per second.
pub const RATE_MBPS: u64 = 100;

/// The number of bytes that may wait in the queue.
pub const LIMIT_BYTES: u64 = 20971520;

/// The number of bytes that can be sent at once.
pub const BUFFER_BYTES: u64 = 10000;

/// A load test in which the bandwidth of the network is limited.
pub struct NetworkBandwidthTest;

/// The limit on the bandwidth of a group of nodes.
pub struct GroupNetworkBandwidth {
    pub name: String,
    pub rate: u64,
    pub limit: u64,
    pub buffer: u64,
}

/// The nodes that the load goes to.
#[derive(Clone, Copy, Debug, PartialEq, Eq, Structural)]
pub enum LoadDestination {
    AllNodes,
    AllValidators,
    AllFullnodes,
    FullnodesOtherwiseValidators,
}

/// What the setup of the test does: the limit it puts on the network, what
/// it reports, and where the load goes.
pub struct Setup {
    pub bandwidth: GroupNetworkBandwidth,
    pub report: String,
    pub destination: LoadDestination,
}

/// The name of the group whose bandwidth is limited to `rate`.
pub open spec fn group_name(rate: u64) -> Seq<char> {
    "forge-namespace-"@ + decimal(rate as nat) + "mbps-bandwidth"@
}

/// The report on a limit that was set.
pub open spec fn setup_report(rate: u64, limit: u64, buffer: u64) -> Seq<char> {
    "Limited bandwidth to "@ + decimal(rate as nat) + "mbps with limit "@ + decimal(limit as nat)
        + " and buffer "@ + decimal(buffer as nat) + " to namespace"@
}

impl NetworkBandwidthTest {
    /// The name of the test.
    pub fn name(&self) -> (name: &'static str)
        ensures
            name@ == "network::bandwidth-test"@,
    {
        "network::bandwidth-test"
    }

    /// The limit that the test puts on the network, and takes off it again
    /// at the end: rate, queue limit and buffer as the constants say, for
    /// the group named after the rate.
    pub fn bandwidth(&self) -> (bandwidth: GroupNetworkBandwidth)
        ensures
            bandwidth.name@ == group_name(RATE_MBPS),
            bandwidth.rate == RATE_MBPS,
            bandwidth.limit == LIMIT_BYTES,
            bandwidth.buffer == BUFFER_BYTES,
    {
        let mut name = String::from_str("forge-namespace-");
        push_decimal(&mut name, RATE_MBPS);
        name.append("mbps-bandwidth");
        GroupNetworkBandwidth { name, rate: RATE_MBPS, limit: LIMIT_BYTES, buffer: BUFFER_BYTES }
    }

    /// What the setup does: it limits the bandwidth, reports the limit, and
    /// sends the load to the full nodes, or to the validators where there
    /// are no full nodes.
    pub fn setup(&self) -> (setup: Setup)
        ensures
            setup.bandwidth.name@ == group_name(RATE_MBPS),
            setup.bandwidth.rate == RATE_MBPS,
            setup.bandwidth.limit == LIMIT_BYTES,
            setup.bandwidth.buffer == BUFFER_BYTES,
            setup.report@ == setup_report(RATE_MBPS, LIMIT_BYTES, BUFFER_BYTES),
            setup.destination == LoadDestination::FullnodesOtherwiseValidators,
    {
        let mut report = String::from_str("Limited bandwidth to ");
        push_decimal(&mut report, RATE_MBPS);
        report.append("mbps with limit ");
        push_decimal(&mut report, LIMIT_BYTES);
        report.append(" and buffer ");
        push_decimal(&mut report, BUFFER_BYTES);
        report.append(" to namespace");
        Setup {
            bandwidth: self.bandwidth(),
            report,
            destination: LoadDestination::FullnodesOtherwiseValidators,
        }
    }

    /// What the end of the test takes off the network: the limit that the setup put on it.
    pub fn finish(&self) -> (bandwidth: GroupNetworkBandwidth)
        ensures
            bandwidth.name@ == group_name(RATE_MBPS),
            bandwidth.rate == RATE_MBPS,
            bandwidth.limit == LIMIT_BYTES,
            bandwidth.buffer == BUFFER_BYTES,
    {
        self.bandwidth()
    }
}

} // verus!
