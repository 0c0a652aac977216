use vstd::prelude::*;
use vstd::string::*;

verus! {

/// The metrics the sampler reads, each published under one topic with one unit.
#[derive(Clone, Copy, PartialEq, Eq, Structural, Debug)]
pub enum Metric {
    CpuTemp,
    CpuUsage,
    BrokerCpuUsage,
    MemAvailable,
}

pub open spec fn topic_of(m: Metric) -> Seq<char> {
    match m {
        Metric::CpuTemp => "TPU/OnBoard/CpuTemp"@,
        Metric::CpuUsage => "TPU/OnBoard/CpuUsage"@,
        Metric::BrokerCpuUsage => "TPU/OnBoard/BrokerCpuUsage"@,
        Metric::MemAvailable => "TPU/OnBoard/MemAvailable"@,
    }
}

pub open spec fn unit_of(m: Metric) -> Seq<char> {
    match m {
        Metric::CpuTemp => "celsius"@,
        Metric::CpuUsage => "%"@,
        Metric::BrokerCpuUsage => "%"@,
        Metric::MemAvailable => "MB"@,
    }
}

impl Metric {
    /// The topic this metric is published under.
    pub fn topic(&self) -> (r: &'static str)
        ensures
            r@ == topic_of(*self),
    {
        match self {
            Metric::CpuTemp => "TPU/OnBoard/CpuTemp",
            Metric::CpuUsage => "TPU/OnBoard/CpuUsage",
            Metric::BrokerCpuUsage => "TPU/OnBoard/BrokerCpuUsage",
            Metric::MemAvailable => "TPU/OnBoard/MemAvailable",
        }
    }

    /// The unit this metric's readings are in.
    pub fn unit(&self) -> (r: &'static str)
        ensures
            r@ == unit_of(*self),
    {
        match self {
            Metric::CpuTemp => "celsius",
            Metric::CpuUsage => "%",
            Metric::BrokerCpuUsage => "%",
            Metric::MemAvailable => "MB",
        }
    }
}

/// A measurement on its way to the broker: a topic, one or more readings as
/// the bits of 32-bit floats, and a unit.
#[derive(Debug, PartialEq)]
pub struct PublishableMessage {
    pub topic: String,
    pub data: Vec<u32>,
    pub unit: String,
}

impl PublishableMessage {
    /// A measurement of one metric with a single reading.
    pub fn reading(metric: Metric, bits: u32) -> (r: PublishableMessage)
        ensures
            r.topic@ == topic_of(metric),
            r.unit@ == unit_of(metric),
            r.data@ == seq![bits],
    {
        let mut data: Vec<u32> = Vec::new();
        data.push(bits);
        PublishableMessage {
            topic: String::from_str(metric.topic()),
            data,
            unit: String::from_str(metric.unit()),
        }
    }
}

} // verus!
