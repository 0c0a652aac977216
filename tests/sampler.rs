use tpu_telemetry::measurement::{Metric, PublishableMessage};
use tpu_telemetry::numerical::{pid_from_file, tick_messages, Reading, Schedule, Tick, FALLBACK_PID};

fn run_until(end_ms: u64) -> Vec<(Tick, u64)> {
    let mut s = Schedule::new();
    let mut fired = Vec::new();
    loop {
        let (tick, due) = s.next();
        if due > end_ms {
            return fired;
        }
        fired.push((tick, due));
        s.advance(tick);
    }
}

#[test]
fn memory_timer_fires_three_times_in_three_and_a_half_seconds() {
    let mut enqueued: Vec<PublishableMessage> = Vec::new();
    for (tick, _) in run_until(3500) {
        if tick == Tick::MemAvailable {
            enqueued.extend(tick_messages(Reading::MemAvailable(512.0f32.to_bits())));
        }
    }
    let mem: Vec<&PublishableMessage> =
        enqueued.iter().filter(|m| m.topic == "TPU/OnBoard/MemAvailable").collect();
    assert_eq!(mem.len(), 3);
    for m in mem {
        assert_eq!(m.unit, "MB");
        assert_eq!(m.data, vec![512.0f32.to_bits()]);
    }
}

#[test]
fn timers_fire_on_their_own_cadence() {
    let fired = run_until(2000);
    let at = |t: Tick| fired.iter().filter(|(k, _)| *k == t).map(|(_, d)| *d).collect::<Vec<u64>>();
    assert_eq!(at(Tick::CpuTemp), vec![2000]);
    assert_eq!(at(Tick::CpuUsage), vec![300, 600, 900, 1200, 1500, 1800]);
    assert_eq!(at(Tick::MemAvailable), vec![1000, 2000]);
    let dues: Vec<u64> = fired.iter().map(|(_, d)| *d).collect();
    let mut sorted = dues.clone();
    sorted.sort();
    assert_eq!(dues, sorted);
    assert_eq!(fired[fired.len() - 2..], [(Tick::CpuTemp, 2000), (Tick::MemAvailable, 2000)]);
}

#[test]
fn fresh_schedule_can_advance() {
    let s = Schedule::new();
    assert!(s.can_advance(Tick::CpuTemp));
}

#[test]
fn tick_messages_per_reading() {
    assert!(tick_messages(Reading::Temperature(None)).is_empty());
    let t = tick_messages(Reading::Temperature(Some(45.5f32.to_bits())));
    assert_eq!(t.len(), 1);
    assert_eq!(t[0].topic, "TPU/OnBoard/CpuTemp");
    assert_eq!(t[0].unit, "celsius");
    assert_eq!(t[0].data, vec![45.5f32.to_bits()]);
    let c = tick_messages(Reading::CpuUsage(12.0f32.to_bits(), 3.0f32.to_bits()));
    assert_eq!(c.len(), 2);
    assert_eq!((c[0].topic.as_str(), c[0].unit.as_str()), ("TPU/OnBoard/CpuUsage", "%"));
    assert_eq!(c[0].data, vec![12.0f32.to_bits()]);
    assert_eq!((c[1].topic.as_str(), c[1].unit.as_str()), ("TPU/OnBoard/BrokerCpuUsage", "%"));
    assert_eq!(c[1].data, vec![3.0f32.to_bits()]);
}

#[test]
fn topic_table_pairs_topics_with_units() {
    assert_eq!(Metric::CpuTemp.topic(), "TPU/OnBoard/CpuTemp");
    assert_eq!(Metric::CpuTemp.unit(), "celsius");
    assert_eq!(Metric::MemAvailable.unit(), "MB");
    assert_eq!(Metric::BrokerCpuUsage.unit(), "%");
}

#[test]
fn pid_file_is_read_with_fallback() {
    assert_eq!(pid_from_file(Some("1234\n")), (1234, false));
    assert_eq!(pid_from_file(Some("77")), (77, false));
    assert_eq!(pid_from_file(None), (FALLBACK_PID, true));
    assert_eq!(pid_from_file(Some("")), (1, true));
    assert_eq!(pid_from_file(Some("12\n\n")), (1, true));
    assert_eq!(pid_from_file(Some("abc")), (1, true));
    assert_eq!(pid_from_file(Some("4294967295")), (u32::MAX, false));
    assert_eq!(pid_from_file(Some("4294967296")), (1, true));
}
